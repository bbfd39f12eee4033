//! The node contract that every tree grammar implements, the typed failures
//! of the mutation operations, and the flattening of a tree into a single
//! ordered token stream.

use vstd::prelude::*;

use crate::arena::Arena;
use crate::decimal::{dec_seq, to_decimal};
use crate::display_token::{rec_dedents, rec_indents, rec_toks_view, render_toks, stream_dedents,
    stream_indents, DisplayToken, RecTok, RecTokView, TokenView};

verus! {

/// The possible ways an insertion could fail.
#[derive(Debug, Clone, PartialEq, Eq, Hash)]
pub enum InsertError {
    /// Inserting the node would cause the child count to exceed the limit
    /// for that node type.
    TooManyChildren { name: String, max_children: usize },
}

impl InsertError {
    /// The descriptive rendering of this error.
    pub open spec fn spec_message(&self) -> Seq<char> {
        match self {
            InsertError::TooManyChildren { name, max_children } => "Can't exceed child count limit of "@
                + dec_seq(*max_children as nat) + " in "@ + name@,
        }
    }

    /// Render this error as a human-readable message.
    pub fn message(&self) -> (r: String)
        ensures
            r@ == self.spec_message(),
    {
        match self {
            InsertError::TooManyChildren { name, max_children } => {
                let mut s = "Can't exceed child count limit of ".to_owned();
                let num = to_decimal(*max_children);
                s.append(num.as_str());
                s.append(" in ");
                s.append(name.as_str());
                s
            },
        }
    }
}

/// The possible ways a deletion could fail.
#[derive(Debug, Clone, PartialEq, Eq, Hash)]
pub enum DeleteError {
    /// Deleting the requested node would cause the parent to have too few
    /// children.
    TooFewChildren { name: String, min_children: usize },
    /// The requested node doesn't exist.  This shouldn't occur in practice,
    /// because it would require selecting a non-existent node, but a
    /// structural editor should not panic in this situation.
    IndexOutOfRange { len: usize, index: usize },
}

impl DeleteError {
    /// The descriptive rendering of this error.
    pub open spec fn spec_message(&self) -> Seq<char> {
        match self {
            DeleteError::TooFewChildren { name, min_children } => "Node type "@ + name@
                + " can't have fewer than "@ + dec_seq(*min_children as nat) + " children."@,
            DeleteError::IndexOutOfRange { len, index } => "Deleting child index "@
                + dec_seq(*index as nat) + " is out of range 0.."@ + dec_seq(*len as nat),
        }
    }

    /// Render this error as a human-readable message.
    pub fn message(&self) -> (r: String)
        ensures
            r@ == self.spec_message(),
    {
        match self {
            DeleteError::TooFewChildren { name, min_children } => {
                let mut s = "Node type ".to_owned();
                s.append(name.as_str());
                s.append(" can't have fewer than ");
                let num = to_decimal(*min_children);
                s.append(num.as_str());
                s.append(" children.");
                s
            },
            DeleteError::IndexOutOfRange { len, index } => {
                let mut s = "Deleting child index ".to_owned();
                let num = to_decimal(*index);
                s.append(num.as_str());
                s.append(" is out of range 0..");
                let num2 = to_decimal(*len);
                s.append(num2.as_str());
                s
            },
        }
    }
}

/// Every child reference of `n` points strictly below `bound`, so a node may
/// only reference nodes that were already in the arena when it was built.
pub open spec fn children_below<N: Ast>(n: N, bound: int) -> bool {
    forall|k: int|
        0 <= k < n.spec_children().len() ==> (#[trigger] n.spec_children()[k]) < bound
}

/// Every node of the arena references only earlier-allocated nodes; this is
/// the arena's structural invariant, and what makes every tree finite.
pub open spec fn arena_children_wf<N: Ast>(arena: Seq<N>) -> bool {
    forall|i: int| 0 <= i < arena.len() ==> children_below(#[trigger] arena[i], i)
}

/// Every child reference among the self-description units points strictly
/// below `bound`.
pub open spec fn toks_below(toks: Seq<RecTokView>, bound: int) -> bool {
    forall|k: int|
        0 <= k < toks.len() ==> ((#[trigger] toks[k]) matches RecTokView::Child(c) ==> c < bound)
}

/// Every node's self-description only splices in earlier-allocated nodes.
pub open spec fn arena_toks_wf<N: Ast>(arena: Seq<N>, format_style: &N::FormatStyle) -> bool {
    forall|i: int|
        0 <= i < arena.len() ==> toks_below((#[trigger] arena[i]).spec_rec_toks(format_style), i)
}

/// The flattened token stream of the node at arena index `i`: its own
/// self-description with every child reference recursively expanded, each
/// literal token paired with the index of the node that produced it.
pub open spec fn flat_at<N: Ast>(
    arena: Seq<N>,
    i: usize,
    format_style: &N::FormatStyle,
) -> Seq<(usize, TokenView)>
    decreases i, arena[i as int].spec_rec_toks(format_style).len() + 1,
        when i < arena.len() && arena_toks_wf(arena, format_style)
{
    flat_from(arena, i, arena[i as int].spec_rec_toks(format_style), format_style)
}

/// The flattened stream produced by the remaining self-description units
/// `toks` of the node at index `i`.
pub open spec fn flat_from<N: Ast>(
    arena: Seq<N>,
    i: usize,
    toks: Seq<RecTokView>,
    format_style: &N::FormatStyle,
) -> Seq<(usize, TokenView)>
    decreases i, toks.len(),
        when i <= arena.len() && arena_toks_wf(arena, format_style) && toks_below(toks, i as int)
{
    if toks.len() == 0 {
        Seq::empty()
    } else {
        (match toks[0] {
            RecTokView::Tok(t) => seq![(i, t)],
            RecTokView::Child(c) => flat_at(arena, c, format_style),
        }) + flat_from(arena, i, toks.drop_first(), format_style)
    }
}

/// The views of a flattened exec token stream.
pub open spec fn stream_view(v: Seq<(usize, DisplayToken)>) -> Seq<(usize, TokenView)> {
    v.map_values(|p: (usize, DisplayToken)| (p.0, p.1@))
}

/// An arena whose nodes reference only earlier-allocated nodes also splices
/// only earlier-allocated nodes into its token streams, because every
/// spliced reference is one of the node's children.
pub proof fn lemma_arena_toks_wf<N: Ast>(arena: Seq<N>, format_style: &N::FormatStyle)
    requires
        arena_children_wf(arena),
    ensures
        arena_toks_wf(arena, format_style),
{
    assert forall|i: int|
        0 <= i < arena.len() implies toks_below(arena[i].spec_rec_toks(format_style), i) by {
        arena[i].lemma_rec_toks_are_children(format_style);
        let toks = arena[i].spec_rec_toks(format_style);
        assert forall|k: int|
            0 <= k < toks.len() implies ((#[trigger] toks[k]) matches RecTokView::Child(c)
            ==> c < i) by {
            match toks[k] {
                RecTokView::Child(c) => {
                    assert(arena[i].spec_children().contains(c));
                    assert(exists|j: int|
                        0 <= j < arena[i].spec_children().len() && arena[i].spec_children()[j]
                            == c);
                    let j = choose|j: int|
                        0 <= j < arena[i].spec_children().len() && arena[i].spec_children()[j] == c;
                    assert(arena[i].spec_children()[j] < i);
                },
                _ => {},
            }
        }
    }
}

/// The specification of a syntax tree node that the editor can display,
/// navigate and mutate.  Concrete tree grammars implement this trait; a
/// node's children are indices into the [`Arena`] that owns the whole tree.
pub trait Ast: Sized {
    /// The different ways nodes of this grammar can be rendered.
    type FormatStyle;

    /// The ordered child references of this node.
    spec fn spec_children(&self) -> Seq<usize>;

    /// The smallest child count this node type permits.
    spec fn spec_min_children(&self) -> usize;

    /// The largest child count this node type permits; `None` means the
    /// count is unbounded.
    spec fn spec_max_children(&self) -> Option<usize>;

    /// The short human label of this node.
    spec fn spec_display_name(&self) -> Seq<char>;

    /// The node's self-description: the ordered interleaving of literal
    /// tokens and child references it renders as.
    spec fn spec_rec_toks(&self, format_style: &Self::FormatStyle) -> Seq<RecTokView>;

    /// The shorthand characters that each produce a whole-node replacement.
    spec fn spec_replace_chars(&self) -> Seq<char>;

    /// The shorthand characters that each insert a new child into this node.
    spec fn spec_insert_chars(&self) -> Seq<char>;

    /// Every child reference spliced into the token stream is one of the
    /// node's children.
    proof fn lemma_rec_toks_are_children(&self, format_style: &Self::FormatStyle)
        ensures
            forall|k: int|
                0 <= k < self.spec_rec_toks(format_style).len() ==> ((#[trigger] self.spec_rec_toks(
                    format_style,
                )[k]) matches RecTokView::Child(c) ==> self.spec_children().contains(c)),
    ;

    /// Every node emits as many `Indent` as `Dedent` markers among the
    /// literal tokens of its self-description, so indentation stays
    /// balanced.
    proof fn lemma_rec_toks_balanced(&self, format_style: &Self::FormatStyle)
        ensures
            rec_indents(self.spec_rec_toks(format_style)) == rec_dedents(
                self.spec_rec_toks(format_style),
            ),
    ;

    /// Get the direct children of this node, as arena indices.  This
    /// operation is expected to be cheap: it is used often, without caching.
    fn children(&self) -> (r: Vec<usize>)
        ensures
            r@ == self.spec_children(),
    ;

    /// Replace the child reference at `index` wholesale, keeping the child
    /// count and every other child unchanged.
    fn replace_child(&mut self, index: usize, new_child: usize)
        requires
            index < old(self).spec_children().len(),
        ensures
            final(self).spec_children() == old(self).spec_children().update(
                index as int,
                new_child,
            ),
            final(self).spec_min_children() == old(self).spec_min_children(),
            final(self).spec_max_children() == old(self).spec_max_children(),
            final(self).spec_display_name() == old(self).spec_display_name(),
    ;

    /// Removes the child at a given index from the children of this node, if
    /// possible.  On failure the node is left unmodified and a typed error
    /// says exactly why: an index at or past the child count is rejected as
    /// out of range, and a deletion that would leave fewer children than the
    /// node type permits is rejected as leaving too few children.
    fn delete_child(&mut self, index: usize) -> (r: Result<(), DeleteError>)
        ensures
            index < old(self).spec_children().len() && old(self).spec_min_children() < old(
                self,
            ).spec_children().len() ==> {
                &&& r is Ok
                &&& final(self).spec_children() == old(self).spec_children().remove(index as int)
                &&& final(self).spec_min_children() == old(self).spec_min_children()
                &&& final(self).spec_max_children() == old(self).spec_max_children()
                &&& final(self).spec_display_name() == old(self).spec_display_name()
            },
            index < old(self).spec_children().len() && old(self).spec_children().len() <= old(
                self,
            ).spec_min_children() ==> {
                &&& *final(self) == *old(self)
                &&& r matches Err(DeleteError::TooFewChildren { name, min_children })
                    && name@ == old(self).spec_display_name()
                    && min_children == old(self).spec_min_children()
            },
            index >= old(self).spec_children().len() ==> {
                &&& *final(self) == *old(self)
                &&& r matches Err(DeleteError::IndexOutOfRange { len, index: idx })
                    && len == old(self).spec_children().len()
                    && idx == index
            },
            r is Ok && old(self).spec_min_children() <= old(self).spec_children().len() && (old(
                self,
            ).spec_max_children() matches Some(m) ==> old(self).spec_children().len() <= m) ==> {
                &&& final(self).spec_min_children() <= final(self).spec_children().len()
                &&& (final(self).spec_max_children() matches Some(m2)
                    ==> final(self).spec_children().len() <= m2)
            },
    ;

    /// Insert the pre-allocated node `new_node` as a new child of this node
    /// at `index`.  The grammar may allocate auxiliary nodes in `arena` to
    /// keep the tree well-formed (inserting a value into a mapping also
    /// synthesizes a key placeholder), so the child inserted at `index` is
    /// not necessarily `new_node` itself.  If the insertion would exceed the
    /// node type's child-count ceiling, a typed error is returned and the
    /// node and arena are left unmodified; the arena otherwise only grows,
    /// so existing references stay valid.
    fn insert_child(&mut self, new_node: usize, arena: &mut Arena<Self>, index: usize) -> (r:
        Result<(), InsertError>)
        requires
            forall|i: int, k: int|
                0 <= i < old(arena)@.len() && 0 <= k < old(arena)@[i].spec_children().len() ==> (
                #[trigger] old(arena)@[i].spec_children()[k]) < i,
            new_node < old(arena)@.len(),
            index <= old(self).spec_children().len(),
            forall|k: int|
                0 <= k < old(self).spec_children().len() ==> (#[trigger] old(
                    self,
                ).spec_children()[k]) < old(arena)@.len(),
        ensures
            forall|i: int, k: int|
                0 <= i < final(arena)@.len() && 0 <= k < final(arena)@[i].spec_children().len()
                    ==> (#[trigger] final(arena)@[i].spec_children()[k]) < i,
            final(arena)@.len() >= old(arena)@.len(),
            forall|k: int| 0 <= k < old(arena)@.len() ==> final(arena)@[k] == old(arena)@[k],
            forall|k: int|
                0 <= k < final(self).spec_children().len()
                    ==> (#[trigger] final(self).spec_children()[k]) < final(arena)@.len(),
            (match old(self).spec_max_children() {
                Some(m) => old(self).spec_children().len() < m,
                None => true,
            }) ==> {
                &&& r is Ok
                &&& exists|c: usize|
                    #![auto]
                    c < final(arena)@.len() && final(self).spec_children() == old(
                        self,
                    ).spec_children().insert(index as int, c)
                &&& final(self).spec_min_children() == old(self).spec_min_children()
                &&& final(self).spec_max_children() == old(self).spec_max_children()
                &&& final(self).spec_display_name() == old(self).spec_display_name()
            },
            (match old(self).spec_max_children() {
                Some(m) => old(self).spec_children().len() >= m,
                None => false,
            }) ==> {
                &&& *final(self) == *old(self)
                &&& final(arena)@ == old(arena)@
                &&& r matches Err(InsertError::TooManyChildren { name, max_children })
                    && name@ == old(self).spec_display_name()
                    && old(self).spec_max_children() == Some(max_children)
            },
            r is Ok && old(self).spec_min_children() <= old(self).spec_children().len() && (old(
                self,
            ).spec_max_children() matches Some(m) ==> old(self).spec_children().len() <= m) ==> {
                &&& final(self).spec_min_children() <= final(self).spec_children().len()
                &&& (final(self).spec_max_children() matches Some(m2)
                    ==> final(self).spec_children().len() <= m2)
            },
    ;

    /// Get the display name of this node, for debug views.  It must not be
    /// used for equality.
    fn display_name(&self) -> (r: String)
        ensures
            r@ == self.spec_display_name(),
    ;

    /// The items that need to be rendered to the screen to make up this
    /// node, in left-to-right document order: literal tokens interleaved
    /// with references to children whose own streams are spliced in.
    fn display_tokens_rec(&self, format_style: &Self::FormatStyle) -> (r: Vec<RecTok>)
        ensures
            rec_toks_view(r@) == self.spec_rec_toks(format_style),
    ;

    /// The distinct shorthand characters a user could type to replace this
    /// node with something else.
    fn replace_chars(&self) -> (r: Vec<char>)
        ensures
            r@ == self.spec_replace_chars(),
            r@.no_duplicates(),
    ;

    /// Generate a new node from a typed character: a replacement node
    /// exactly when `c` is one of [`replace_chars`](Ast::replace_chars),
    /// nothing otherwise (absence is not an error, it signals "no such
    /// shortcut").
    fn from_char(&self, c: char) -> (r: Option<Self>)
        ensures
            r is Some <==> self.spec_replace_chars().contains(c),
    ;

    /// The shorthand characters a user could type to insert a new child
    /// into this node.
    fn insert_chars(&self) -> (r: Vec<char>)
        ensures
            r@ == self.spec_insert_chars(),
    ;

    /// Whether a given character is in [`replace_chars`](Ast::replace_chars).
    fn is_replace_char(&self, c: char) -> (r: bool)
        ensures
            r == self.spec_replace_chars().contains(c),
    {
        let chars = self.replace_chars();
        vec_contains_char(&chars, c)
    }

    /// Whether a given character is in [`insert_chars`](Ast::insert_chars).
    fn is_insert_char(&self, c: char) -> (r: bool)
        ensures
            r == self.spec_insert_chars().contains(c),
    {
        let chars = self.insert_chars();
        vec_contains_char(&chars, c)
    }
}

/// Linear search for a character.
fn vec_contains_char(v: &Vec<char>, c: char) -> (r: bool)
    ensures
        r == v@.contains(c),
{
    let mut k: usize = 0;
    while k < v.len()
        invariant
            k <= v@.len(),
            forall|j: int| 0 <= j < k ==> v@[j] != c,
        decreases v@.len() - k,
    {
        if v[k] == c {
            proof {
                assert(v@[k as int] == c);
            }
            return true;
        }
        k += 1;
    }
    false
}

/// The literal tokens of a flattened stream, without the indices of the
/// nodes that produced them.
pub open spec fn stream_toks(s: Seq<(usize, TokenView)>) -> Seq<TokenView> {
    s.map_values(|p: (usize, TokenView)| p.1)
}

/// The text that the node at arena index `i` renders to: its flattened
/// token stream, materialized by the renderer starting at indentation zero.
/// This is a pure function of the tree and the format style, so rendering
/// is deterministic and repeatable.
pub open spec fn rendered_text<N: Ast>(
    arena: Seq<N>,
    i: usize,
    format_style: &N::FormatStyle,
) -> Seq<char> {
    render_toks(stream_toks(flat_at(arena, i, format_style)), 0)
}

/// Flatten the tree rooted at arena index `i` into a single ordered token
/// stream: the node's own self-description with every child reference
/// recursively expanded in place, each literal token paired with the index
/// of the node that produced it.  The output is a pure function of the tree
/// and the format style.
pub fn display_tokens<N: Ast>(
    arena: &Arena<N>,
    i: usize,
    format_style: &N::FormatStyle,
) -> (r: Vec<(usize, DisplayToken)>)
    requires
        arena_children_wf(arena@),
        i < arena@.len(),
    ensures
        stream_view(r@) == flat_at(arena@, i, format_style),
    decreases i,
{
    proof {
        lemma_arena_toks_wf(arena@, format_style);
    }
    let node = arena.get(i);
    let mut rts = node.display_tokens_rec(format_style);
    let mut out: Vec<(usize, DisplayToken)> = Vec::new();
    proof {
        assert(toks_below(rec_toks_view(rts@), i as int));
        assert(stream_view(out@) =~= Seq::<(usize, TokenView)>::empty());
        assert(stream_view(out@) + flat_from(arena@, i, rec_toks_view(rts@), format_style)
            =~= flat_from(arena@, i, rec_toks_view(rts@), format_style));
    }
    while rts.len() > 0
        invariant
            arena_children_wf(arena@),
            arena_toks_wf(arena@, format_style),
            i < arena@.len(),
            toks_below(rec_toks_view(rts@), i as int),
            flat_at(arena@, i, format_style) == stream_view(out@) + flat_from(
                arena@,
                i,
                rec_toks_view(rts@),
                format_style,
            ),
        decreases rts@.len(),
    {
        let ghost prev = rec_toks_view(rts@);
        let ghost out_prev = out@;
        let rt = rts.remove(0);
        proof {
            assert(rec_toks_view(rts@) =~= prev.drop_first());
            assert(rt@ == prev[0]);
            assert(flat_from(arena@, i, prev, format_style) == (match prev[0] {
                RecTokView::Tok(t) => seq![(i, t)],
                RecTokView::Child(c) => flat_at(arena@, c, format_style),
            }) + flat_from(arena@, i, prev.drop_first(), format_style));
        }
        match rt {
            RecTok::Tok(t) => {
                out.push((i, t));
                proof {
                    assert(stream_view(out@) =~= stream_view(out_prev) + seq![
                        (i, prev[0]->Tok_0),
                    ]);
                    assert(stream_view(out@) + flat_from(
                        arena@,
                        i,
                        prev.drop_first(),
                        format_style,
                    ) =~= (stream_view(out_prev) + flat_from(arena@, i, prev, format_style)));
                }
            },
            RecTok::Child(c) => {
                let mut sub = display_tokens(arena, c, format_style);
                out.append(&mut sub);
                proof {
                    assert(stream_view(out@) =~= stream_view(out_prev) + flat_at(
                        arena@,
                        c,
                        format_style,
                    ));
                    assert(stream_view(out@) + flat_from(
                        arena@,
                        i,
                        prev.drop_first(),
                        format_style,
                    ) =~= (stream_view(out_prev) + flat_from(arena@, i, prev, format_style)));
                }
            },
        }
    }
    proof {
        assert(rec_toks_view(rts@).len() == 0);
        assert(flat_from(arena@, i, rec_toks_view(rts@), format_style)
            == Seq::<(usize, TokenView)>::empty());
        assert(stream_view(out@) + Seq::<(usize, TokenView)>::empty() =~= stream_view(out@));
    }
    out
}


/// Write the textual representation of the tree rooted at arena index `i`
/// to a string.
pub fn write_text<N: Ast>(
    arena: &Arena<N>,
    i: usize,
    string: &mut String,
    format_style: &N::FormatStyle,
)
    requires
        arena_children_wf(arena@),
        i < arena@.len(),
    ensures
        final(string)@ == old(string)@ + rendered_text(arena@, i, format_style),
{
    crate::display_token::write_tokens(arena, i, string, format_style);
}

/// Make a string representing the tree rooted at arena index `i`: the same
/// as [`write_text`] but into a fresh string.
pub fn to_text<N: Ast>(arena: &Arena<N>, i: usize, format_style: &N::FormatStyle) -> (r: String)
    requires
        arena_children_wf(arena@),
        i < arena@.len(),
    ensures
        r@ == rendered_text(arena@, i, format_style),
{
    let mut s = String::new();
    write_text(arena, i, &mut s, format_style);
    proof {
        assert(Seq::<char>::empty() + rendered_text(arena@, i, format_style) =~= rendered_text(
            arena@,
            i,
            format_style,
        ));
    }
    s
}

/// Every index in `kids` points strictly below `bound`.
pub open spec fn indices_below(kids: Seq<usize>, bound: int) -> bool {
    forall|k: int| 0 <= k < kids.len() ==> (#[trigger] kids[k]) < bound
}

/// The indented outline of the tree rooted at arena index `i`: one line per
/// node, holding its display name, children indented by two more spaces,
/// every line (the last included) ending in a newline.
pub open spec fn tree_view_at<N: Ast>(arena: Seq<N>, i: usize, ind: Seq<char>) -> Seq<char>
    decreases i, arena[i as int].spec_children().len() + 1,
        when i < arena.len() && arena_children_wf(arena)
{
    ind + arena[i as int].spec_display_name() + seq!['\n'] + tree_view_kids(
        arena,
        i,
        arena[i as int].spec_children(),
        ind + "  "@,
    )
}

/// The concatenated outlines of the remaining children `kids` of the node
/// at index `i`.
pub open spec fn tree_view_kids<N: Ast>(
    arena: Seq<N>,
    i: usize,
    kids: Seq<usize>,
    ind: Seq<char>,
) -> Seq<char>
    decreases i, kids.len(),
        when i <= arena.len() && arena_children_wf(arena) && indices_below(kids, i as int)
{
    if kids.len() == 0 {
        Seq::empty()
    } else {
        tree_view_at(arena, kids[0], ind) + tree_view_kids(arena, i, kids.drop_first(), ind)
    }
}

/// The number of nodes in the tree rooted at arena index `i`.
pub open spec fn node_count_at<N: Ast>(arena: Seq<N>, i: usize) -> nat
    decreases i, arena[i as int].spec_children().len() + 1,
        when i < arena.len() && arena_children_wf(arena)
{
    1 + node_count_kids(arena, i, arena[i as int].spec_children())
}

/// The number of nodes in the trees rooted at the remaining children `kids`
/// of the node at index `i`.
pub open spec fn node_count_kids<N: Ast>(arena: Seq<N>, i: usize, kids: Seq<usize>) -> nat
    decreases i, kids.len(),
        when i <= arena.len() && arena_children_wf(arena) && indices_below(kids, i as int)
{
    if kids.len() == 0 {
        0
    } else {
        node_count_at(arena, kids[0]) + node_count_kids(arena, i, kids.drop_first())
    }
}

/// Render a tree view of the node at arena index `i`, similar to the output
/// of the Unix command `tree`, appending to `string`: the node's line at the
/// given indentation, then every descendant, each line ending in a newline.
pub fn write_tree_view_recursive<N: Ast>(
    arena: &Arena<N>,
    i: usize,
    string: &mut String,
    indentation_string: &String,
)
    requires
        arena_children_wf(arena@),
        i < arena@.len(),
    ensures
        final(string)@ == old(string)@ + tree_view_at(arena@, i, indentation_string@),
    decreases i,
{
    string.append(indentation_string.as_str());
    let node = arena.get(i);
    let name = node.display_name();
    string.append(name.as_str());
    proof {
        reveal_strlit("\n");
    }
    string.append("\n");
    proof {
        assert(string@ =~= old(string)@ + (indentation_string@ + arena@[i as int].spec_display_name()
            + seq!['\n']));
    }
    let ghost headed = string@;
    let mut deeper = indentation_string.clone();
    deeper.append("  ");
    let kids = node.children();
    let n = kids.len();
    let mut k: usize = 0;
    proof {
        assert(kids@.skip(0) =~= kids@);
    }
    while k < n
        invariant
            arena_children_wf(arena@),
            i < arena@.len(),
            n == kids@.len(),
            k <= n,
            kids@ == arena@[i as int].spec_children(),
            deeper@ == indentation_string@ + "  "@,
            indices_below(kids@, i as int),
            headed + tree_view_kids(arena@, i, kids@, deeper@) == string@ + tree_view_kids(
                arena@,
                i,
                kids@.skip(k as int),
                deeper@,
            ),
        decreases n - k,
    {
        let ghost rest = kids@.skip(k as int);
        proof {
            assert(rest[0] == kids@[k as int]);
            assert(rest.drop_first() =~= kids@.skip(k as int + 1));
            assert(indices_below(rest, i as int));
            assert(tree_view_kids(arena@, i, rest, deeper@) == tree_view_at(
                arena@,
                rest[0],
                deeper@,
            ) + tree_view_kids(arena@, i, rest.drop_first(), deeper@));
        }
        let ghost pre = string@;
        let c = kids[k];
        write_tree_view_recursive(arena, c, string, &deeper);
        proof {
            assert(pre + (tree_view_at(arena@, c, deeper@) + tree_view_kids(
                arena@,
                i,
                rest.drop_first(),
                deeper@,
            )) =~= string@ + tree_view_kids(arena@, i, rest.drop_first(), deeper@));
        }
        k += 1;
    }
    proof {
        assert(tree_view_kids(arena@, i, kids@.skip(n as int), deeper@)
            == Seq::<char>::empty());
        assert(string@ + Seq::<char>::empty() =~= string@);
        assert(headed + tree_view_kids(arena@, i, kids@, deeper@) =~= old(string)@ + tree_view_at(
            arena@,
            i,
            indentation_string@,
        ));
    }
}


/// The flattened stream of the node at index `i` carries as many `Indent`
/// as `Dedent` tokens.
pub proof fn lemma_flat_balanced_at<N: Ast>(arena: Seq<N>, i: usize, format_style: &N::FormatStyle)
    requires
        arena_children_wf(arena),
        arena_toks_wf(arena, format_style),
        i < arena.len(),
    ensures
        stream_indents(flat_at(arena, i, format_style)) == stream_dedents(
            flat_at(arena, i, format_style),
        ),
    decreases i, arena[i as int].spec_rec_toks(format_style).len() + 1,
{
    arena[i as int].lemma_rec_toks_balanced(format_style);
    lemma_flat_balanced_from(arena, i, arena[i as int].spec_rec_toks(format_style), format_style);
}

/// The stream produced by the remaining self-description units `toks`
/// changes the indent/dedent difference exactly as the literal tokens of
/// `toks` do, because every spliced child contributes a balanced stream.
pub proof fn lemma_flat_balanced_from<N: Ast>(
    arena: Seq<N>,
    i: usize,
    toks: Seq<RecTokView>,
    format_style: &N::FormatStyle,
)
    requires
        arena_children_wf(arena),
        arena_toks_wf(arena, format_style),
        i <= arena.len(),
        toks_below(toks, i as int),
    ensures
        stream_indents(flat_from(arena, i, toks, format_style)) - stream_dedents(
            flat_from(arena, i, toks, format_style),
        ) == rec_indents(toks) - rec_dedents(toks),
    decreases i, toks.len(),
{
    if toks.len() == 0 {
    } else {
        let head = match toks[0] {
            RecTokView::Tok(t) => seq![(i, t)],
            RecTokView::Child(c) => flat_at(arena, c, format_style),
        };
        let tail = flat_from(arena, i, toks.drop_first(), format_style);
        crate::display_token::lemma_stream_counts_add(head, tail);
        assert(flat_from(arena, i, toks, format_style) == head + tail);
        match toks[0] {
            RecTokView::Tok(t) => {
                let single = seq![(i, t)];
                assert(single.drop_first() =~= Seq::<(usize, TokenView)>::empty());
                assert(stream_indents(Seq::<(usize, TokenView)>::empty()) == 0);
                assert(stream_dedents(Seq::<(usize, TokenView)>::empty()) == 0);
                assert(single[0].1 == t);
                assert(stream_indents(single) == (if t is Indent {
                    1int
                } else {
                    0int
                }));
                assert(stream_dedents(single) == (if t is Dedent {
                    1int
                } else {
                    0int
                }));
            },
            RecTokView::Child(c) => {
                lemma_flat_balanced_at(arena, c, format_style);
            },
        }
        assert(toks_below(toks.drop_first(), i as int));
        lemma_flat_balanced_from(arena, i, toks.drop_first(), format_style);
        assert(rec_indents(toks) == (if toks[0] matches RecTokView::Tok(TokenView::Indent) {
            1int
        } else {
            0int
        }) + rec_indents(toks.drop_first()));
        assert(rec_dedents(toks) == (if toks[0] matches RecTokView::Tok(TokenView::Dedent) {
            1int
        } else {
            0int
        }) + rec_dedents(toks.drop_first()));
    }
}

/// Indentation balance: in the flattened token stream of any tree the
/// number of `Indent` tokens equals the number of `Dedent` tokens.
pub proof fn lemma_indent_dedent_balance<N: Ast>(
    arena: Seq<N>,
    i: usize,
    format_style: &N::FormatStyle,
)
    requires
        arena_children_wf(arena),
        i < arena.len(),
    ensures
        stream_indents(flat_at(arena, i, format_style)) == stream_dedents(
            flat_at(arena, i, format_style),
        ),
{
    lemma_arena_toks_wf(arena, format_style);
    lemma_flat_balanced_at(arena, i, format_style);
}

/// A tree view is never empty, and always ends with a newline.
pub proof fn lemma_tree_view_ends_newline<N: Ast>(arena: Seq<N>, i: usize, ind: Seq<char>)
    requires
        arena_children_wf(arena),
        i < arena.len(),
    ensures
        tree_view_at(arena, i, ind).len() > 0,
        tree_view_at(arena, i, ind).last() == '\n',
    decreases i, arena[i as int].spec_children().len() + 1,
{
    let kids = arena[i as int].spec_children();
    let head = ind + arena[i as int].spec_display_name() + seq!['\n'];
    let kids_part = tree_view_kids(arena, i, kids, ind + "  "@);
    if kids.len() == 0 {
        assert(kids_part == Seq::<char>::empty());
        assert(head + kids_part =~= head);
        assert(head.last() == '\n');
    } else {
        lemma_tree_view_kids_ends_newline(arena, i, kids, ind + "  "@);
        assert((head + kids_part).last() == kids_part.last());
    }
}

/// The concatenated views of a non-empty list of children end with a
/// newline.
pub proof fn lemma_tree_view_kids_ends_newline<N: Ast>(
    arena: Seq<N>,
    i: usize,
    kids: Seq<usize>,
    ind: Seq<char>,
)
    requires
        arena_children_wf(arena),
        i <= arena.len(),
        indices_below(kids, i as int),
        kids.len() > 0,
    ensures
        tree_view_kids(arena, i, kids, ind).len() > 0,
        tree_view_kids(arena, i, kids, ind).last() == '\n',
    decreases i, kids.len(),
{
    let head = tree_view_at(arena, kids[0], ind);
    let tail = tree_view_kids(arena, i, kids.drop_first(), ind);
    assert(indices_below(kids.drop_first(), i as int));
    if kids.drop_first().len() == 0 {
        lemma_tree_view_ends_newline(arena, kids[0], ind);
        assert(tail == Seq::<char>::empty());
        assert(head + tail =~= head);
    } else {
        lemma_tree_view_kids_ends_newline(arena, i, kids.drop_first(), ind);
        assert((head + tail).last() == tail.last());
    }
}

/// Render a tree view of the node at arena index `i` into `string`, without
/// the trailing newline on the final line.
pub fn write_tree_view<N: Ast>(arena: &Arena<N>, i: usize, string: &mut String)
    requires
        arena_children_wf(arena@),
        i < arena@.len(),
    ensures
        final(string)@ == old(string)@ + tree_view_at(arena@, i, Seq::empty()).drop_last(),
{
    let empty_ind = String::new();
    let mut s = String::new();
    write_tree_view_recursive(arena, i, &mut s, &empty_ind);
    proof {
        lemma_tree_view_ends_newline(arena@, i, Seq::empty());
        assert(s@ =~= tree_view_at(arena@, i, Seq::empty()));
    }
    let total = s.as_str().unicode_len();
    let trimmed = s.as_str().substring_char(0, total - 1);
    string.append(trimmed);
    proof {
        assert(s@.subrange(0, s@.len() - 1) =~= tree_view_at(arena@, i, Seq::empty()).drop_last());
    }
}

/// Build a string holding the tree view of the node at arena index `i`,
/// similar to the output of the Unix command `tree`: one line per node, two
/// extra spaces of indentation per depth, no trailing newline.
pub fn tree_view<N: Ast>(arena: &Arena<N>, i: usize) -> (r: String)
    requires
        arena_children_wf(arena@),
        i < arena@.len(),
    ensures
        r@ == tree_view_at(arena@, i, Seq::empty()).drop_last(),
{
    let mut s = String::new();
    write_tree_view(arena, i, &mut s);
    proof {
        assert(Seq::<char>::empty() + tree_view_at(arena@, i, Seq::empty()).drop_last()
            =~= tree_view_at(arena@, i, Seq::empty()).drop_last());
    }
    s
}

/// How many times a character occurs in a sequence.
pub open spec fn count_char(s: Seq<char>, c: char) -> int
    decreases s.len(),
{
    if s.len() == 0 {
        0
    } else {
        (if s[0] == c {
            1int
        } else {
            0int
        }) + count_char(s.drop_first(), c)
    }
}

/// Character counts distribute over concatenation.
pub proof fn lemma_count_char_add(a: Seq<char>, b: Seq<char>, c: char)
    ensures
        count_char(a + b, c) == count_char(a, c) + count_char(b, c),
    decreases a.len(),
{
    if a.len() == 0 {
        assert(a + b =~= b);
    } else {
        assert((a + b).drop_first() =~= a.drop_first() + b);
        assert((a + b)[0] == a[0]);
        lemma_count_char_add(a.drop_first(), b, c);
    }
}

/// A sequence without the character has count zero.
pub proof fn lemma_count_char_absent(s: Seq<char>, c: char)
    requires
        forall|k: int| 0 <= k < s.len() ==> s[k] != c,
    ensures
        count_char(s, c) == 0,
    decreases s.len(),
{
    if s.len() > 0 {
        lemma_count_char_absent(s.drop_first(), c);
    }
}

/// The tree view of a tree has exactly one newline per node: its line count
/// equals the total node count.  This needs the indentation and every
/// display name to be newline-free, as the two-space indentation always is.
pub proof fn lemma_tree_view_line_count<N: Ast>(arena: Seq<N>, i: usize, ind: Seq<char>)
    requires
        arena_children_wf(arena),
        i < arena.len(),
        forall|k: int| 0 <= k < ind.len() ==> ind[k] != '\n',
        forall|j: int, k: int|
            0 <= j < arena.len() && 0 <= k < arena[j].spec_display_name().len()
                ==> (#[trigger] arena[j].spec_display_name()[k]) != '\n',
    ensures
        count_char(tree_view_at(arena, i, ind), '\n') == node_count_at(arena, i),
    decreases i, arena[i as int].spec_children().len() + 1,
{
    let name = arena[i as int].spec_display_name();
    let kids = arena[i as int].spec_children();
    let deeper = ind + "  "@;
    let kids_part = tree_view_kids(arena, i, kids, deeper);
    lemma_count_char_add(ind + name + seq!['\n'], kids_part, '\n');
    lemma_count_char_add(ind + name, seq!['\n'], '\n');
    lemma_count_char_add(ind, name, '\n');
    lemma_count_char_absent(ind, '\n');
    assert(forall|k: int| 0 <= k < name.len() ==> name[k] != '\n');
    lemma_count_char_absent(name, '\n');
    assert(seq!['\n'].drop_first() =~= Seq::<char>::empty());
    assert(count_char(Seq::<char>::empty(), '\n') == 0);
    assert(count_char(seq!['\n'], '\n') == 1);
    assert forall|k: int| 0 <= k < deeper.len() implies deeper[k] != '\n' by {
        reveal_strlit("  ");
        assert(("  "@).len() == 2);
        if k < ind.len() {
            assert(deeper[k] == ind[k]);
        } else {
            assert(deeper[k] == ("  "@)[k - ind.len()]);
        }
    }
    lemma_tree_view_kids_line_count(arena, i, kids, deeper);
}

/// The concatenated views of the remaining children have one newline per
/// descendant node.
pub proof fn lemma_tree_view_kids_line_count<N: Ast>(
    arena: Seq<N>,
    i: usize,
    kids: Seq<usize>,
    ind: Seq<char>,
)
    requires
        arena_children_wf(arena),
        i <= arena.len(),
        indices_below(kids, i as int),
        forall|k: int| 0 <= k < ind.len() ==> ind[k] != '\n',
        forall|j: int, k: int|
            0 <= j < arena.len() && 0 <= k < arena[j].spec_display_name().len()
                ==> (#[trigger] arena[j].spec_display_name()[k]) != '\n',
    ensures
        count_char(tree_view_kids(arena, i, kids, ind), '\n') == node_count_kids(arena, i, kids),
    decreases i, kids.len(),
{
    if kids.len() == 0 {
    } else {
        lemma_count_char_add(
            tree_view_at(arena, kids[0], ind),
            tree_view_kids(arena, i, kids.drop_first(), ind),
            '\n',
        );
        lemma_tree_view_line_count(arena, kids[0], ind);
        assert(indices_below(kids.drop_first(), i as int));
        lemma_tree_view_kids_line_count(arena, i, kids.drop_first(), ind);
    }
}

} // verus!
