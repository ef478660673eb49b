//! The document model of notes written in Markdown: blocks and inline
//! content built from the events of `pulldown-cmark`, and the outline of
//! headings.

use vstd::prelude::*;

verus! {

/// Alignment of a table column.
#[derive(Debug, Clone, Copy, PartialEq, Eq)]
pub enum MarkdownTableAlignment {
    /// Not given.
    Unspecified,
    Left,
    Center,
    Right,
}

/// Inline content.
#[derive(Debug, PartialEq, Hash)]
pub enum MarkdownInline {
    Text(String),
    Emphasis(Vec<MarkdownInline>),
    Strong(Vec<MarkdownInline>),
    Strikethrough(Vec<MarkdownInline>),
    Code(String),
    Link { destination: String, title: Option<String>, content: Vec<MarkdownInline> },
    Image { destination: String, title: Option<String>, alt: String },
    SoftBreak,
    HardBreak,
    /// Raw HTML, kept as text.
    Html(String),
}

/// Block content.
#[derive(Debug, PartialEq)]
pub enum MarkdownBlock {
    /// A heading of level 1 to 6.
    Heading { level: u8, content: Vec<MarkdownInline> },
    Paragraph(Vec<MarkdownInline>),
    Quote(Vec<MarkdownBlock>),
    /// A list; an unordered one starts at 1.
    List { ordered: bool, start: u64, items: Vec<MarkdownListItem> },
    /// A code block, with its language when given.
    CodeBlock { language: Option<String>, content: String },
    Table {
        alignments: Vec<MarkdownTableAlignment>,
        headers: Vec<Vec<MarkdownInline>>,
        rows: Vec<Vec<Vec<MarkdownInline>>>,
    },
    ThematicBreak,
}

/// A list item; a task item is checked or not.
#[derive(Debug, PartialEq)]
pub struct MarkdownListItem {
    pub checked: Option<bool>,
    pub blocks: Vec<MarkdownBlock>,
}

/// A parsed document.
#[derive(Debug, PartialEq)]
pub struct MarkdownDocument {
    pub blocks: Vec<MarkdownBlock>,
}

/// An entry of the outline of headings.
#[derive(Debug, Clone, PartialEq, Eq)]
pub struct MarkdownHeading {
    /// Level, 1 to 6.
    pub level: u8,
    pub title: String,
}

/// Mathematical model of inline content.
pub enum InlineV {
    Text(Seq<char>),
    Emphasis(Seq<InlineV>),
    Strong(Seq<InlineV>),
    Strikethrough(Seq<InlineV>),
    Code(Seq<char>),
    Link(Seq<char>, Option<Seq<char>>, Seq<InlineV>),
    Image(Seq<char>, Option<Seq<char>>, Seq<char>),
    SoftBreak,
    HardBreak,
    Html(Seq<char>),
}

/// Mathematical model of block content.
pub enum BlockV {
    Heading(u8, Seq<InlineV>),
    Paragraph(Seq<InlineV>),
    Quote(Seq<BlockV>),
    List(bool, u64, Seq<(Option<bool>, Seq<BlockV>)>),
    CodeBlock(Option<Seq<char>>, Seq<char>),
    Table(Seq<MarkdownTableAlignment>, Seq<Seq<InlineV>>, Seq<Seq<Seq<InlineV>>>),
    ThematicBreak,
}

/// The text of an optional string.
pub open spec fn opt_seq(o: Option<String>) -> Option<Seq<char>> {
    match o {
        Some(s) => Some(s@),
        None => None,
    }
}

/// The model of one inline element.
pub open spec fn inline_v(i: MarkdownInline) -> InlineV
    decreases i,
{
    match i {
        MarkdownInline::Text(s) => InlineV::Text(s@),
        MarkdownInline::Emphasis(c) => InlineV::Emphasis(inlines_v(c@)),
        MarkdownInline::Strong(c) => InlineV::Strong(inlines_v(c@)),
        MarkdownInline::Strikethrough(c) => InlineV::Strikethrough(inlines_v(c@)),
        MarkdownInline::Code(s) => InlineV::Code(s@),
        MarkdownInline::Link { destination, title, content } => InlineV::Link(
            destination@,
            opt_seq(title),
            inlines_v(content@),
        ),
        MarkdownInline::Image { destination, title, alt } => InlineV::Image(destination@, opt_seq(title), alt@),
        MarkdownInline::SoftBreak => InlineV::SoftBreak,
        MarkdownInline::HardBreak => InlineV::HardBreak,
        MarkdownInline::Html(s) => InlineV::Html(s@),
    }
}

/// The models of a sequence of inline elements.
pub open spec fn inlines_v(s: Seq<MarkdownInline>) -> Seq<InlineV>
    decreases s,
{
    if s.len() == 0 {
        seq![]
    } else {
        seq![inline_v(s[0])] + inlines_v(s.subrange(1, s.len() as int))
    }
}

/// The model of one block.
pub open spec fn block_v(b: MarkdownBlock) -> BlockV
    decreases b,
{
    match b {
        MarkdownBlock::Heading { level, content } => BlockV::Heading(level, inlines_v(content@)),
        MarkdownBlock::Paragraph(c) => BlockV::Paragraph(inlines_v(c@)),
        MarkdownBlock::Quote(bs) => BlockV::Quote(blocks_v(bs@)),
        MarkdownBlock::List { ordered, start, items } => BlockV::List(ordered, start, items_v(items@)),
        MarkdownBlock::CodeBlock { language, content } => BlockV::CodeBlock(opt_seq(language), content@),
        MarkdownBlock::Table { alignments, headers, rows } => BlockV::Table(alignments@, cells_v(headers@), rows_v(rows@)),
        MarkdownBlock::ThematicBreak => BlockV::ThematicBreak,
    }
}

/// The models of a sequence of blocks.
pub open spec fn blocks_v(s: Seq<MarkdownBlock>) -> Seq<BlockV>
    decreases s,
{
    if s.len() == 0 {
        seq![]
    } else {
        seq![block_v(s[0])] + blocks_v(s.subrange(1, s.len() as int))
    }
}

/// The models of a sequence of list items.
pub open spec fn items_v(s: Seq<MarkdownListItem>) -> Seq<(Option<bool>, Seq<BlockV>)>
    decreases s,
{
    if s.len() == 0 {
        seq![]
    } else {
        seq![(s[0].checked, blocks_v(s[0].blocks@))] + items_v(s.subrange(1, s.len() as int))
    }
}

/// The models of the cells of a table row.
pub open spec fn cells_v(s: Seq<Vec<MarkdownInline>>) -> Seq<Seq<InlineV>>
    decreases s,
{
    if s.len() == 0 {
        seq![]
    } else {
        seq![inlines_v(s[0]@)] + cells_v(s.subrange(1, s.len() as int))
    }
}

/// The models of the rows of a table.
pub open spec fn rows_v(s: Seq<Vec<Vec<MarkdownInline>>>) -> Seq<Seq<Seq<InlineV>>>
    decreases s,
{
    if s.len() == 0 {
        seq![]
    } else {
        seq![cells_v(s[0]@)] + rows_v(s.subrange(1, s.len() as int))
    }
}

/// The plain text of one inline element.
pub open spec fn inline_piece_text(x: InlineV) -> Seq<char>
    decreases x,
{
    match x {
        InlineV::Text(t) => t,
        InlineV::Code(t) => t,
        InlineV::Html(t) => t,
        InlineV::Emphasis(c) => inline_text_v(c),
        InlineV::Strong(c) => inline_text_v(c),
        InlineV::Strikethrough(c) => inline_text_v(c),
        InlineV::Link(_, _, c) => inline_text_v(c),
        InlineV::Image(_, _, alt) => alt,
        InlineV::SoftBreak => seq![' '],
        InlineV::HardBreak => seq![' '],
    }
}

/// The plain text of inline content: texts, code, HTML and image alternative
/// texts, with a space for each line break.
pub open spec fn inline_text_v(s: Seq<InlineV>) -> Seq<char>
    decreases s,
{
    if s.len() == 0 {
        seq![]
    } else {
        inline_piece_text(s[0]) + inline_text_v(s.subrange(1, s.len() as int))
    }
}

pub proof fn lemma_inlines_v(s: Seq<MarkdownInline>)
    ensures
        inlines_v(s).len() == s.len(),
        forall|k: int| 0 <= k < s.len() ==> #[trigger] inlines_v(s)[k] == inline_v(s[k]),
    decreases s.len(),
{
    if s.len() > 0 {
        let t = s.subrange(1, s.len() as int);
        lemma_inlines_v(t);
        assert forall|k: int| 0 <= k < s.len() implies #[trigger] inlines_v(s)[k] == inline_v(s[k]) by {
            if k > 0 {
                assert(s[k] == t[k - 1]);
            }
        }
    }
}

pub proof fn lemma_inline_text_split(s: Seq<InlineV>, k: int)
    requires
        0 <= k < s.len(),
    ensures
        inline_text_v(s.take(k + 1)) == inline_text_v(s.take(k)) + inline_piece_text(s[k]),
    decreases k,
{
    let a = s.take(k + 1);
    if k == 0 {
        assert(s.take(0) =~= Seq::<InlineV>::empty());
        assert(a =~= seq![s[0]]);
        assert(a.subrange(1, 1) =~= Seq::<InlineV>::empty());
        assert(inline_text_v(Seq::<InlineV>::empty()) =~= Seq::<char>::empty());
        assert(inline_text_v(a) =~= inline_piece_text(s[0]));
    } else {
        let t = s.subrange(1, s.len() as int);
        lemma_inline_text_split(t, k - 1);
        assert(a.subrange(1, a.len() as int) =~= t.take(k));
        assert(s.take(k).subrange(1, k) =~= t.take(k - 1));
        assert(t[k - 1] == s[k]);
        assert(inline_text_v(a) =~= inline_text_v(s.take(k)) + inline_piece_text(s[k]));
    }
}

/// The plain text of inline content, as shown in the outline.
pub fn inline_text(inlines: &[MarkdownInline]) -> (r: String)
    ensures
        r@ == inline_text_v(inlines_v(inlines@)),
    decreases inlines@,
{
    let ghost iv = inlines_v(inlines@);
    proof {
        lemma_inlines_v(inlines@);
    }
    let mut text = String::new();
    let mut i: usize = 0;
    assert(iv.take(0) =~= Seq::<InlineV>::empty());
    while i < inlines.len()
        invariant
            i <= inlines.len(),
            iv == inlines_v(inlines@),
            iv.len() == inlines@.len(),
            forall|k: int| 0 <= k < inlines@.len() ==> #[trigger] iv[k] == inline_v(inlines@[k]),
            text@ == inline_text_v(iv.take(i as int)),
        decreases inlines.len() - i,
    {
        let ghost before = text@;
        proof {
            lemma_inline_text_split(iv, i as int);
        }
        match &inlines[i] {
            MarkdownInline::Text(v) => text.append(v.as_str()),
            MarkdownInline::Code(v) => text.append(v.as_str()),
            MarkdownInline::Html(v) => text.append(v.as_str()),
            MarkdownInline::Emphasis(c) => {
                let t = inline_text(c.as_slice());
                text.append(t.as_str());
            },
            MarkdownInline::Strong(c) => {
                let t = inline_text(c.as_slice());
                text.append(t.as_str());
            },
            MarkdownInline::Strikethrough(c) => {
                let t = inline_text(c.as_slice());
                text.append(t.as_str());
            },
            MarkdownInline::Link { content, .. } => {
                let t = inline_text(content.as_slice());
                text.append(t.as_str());
            },
            MarkdownInline::Image { alt, .. } => text.append(alt.as_str()),
            MarkdownInline::SoftBreak => crate::text::push_char(&mut text, ' '),
            MarkdownInline::HardBreak => crate::text::push_char(&mut text, ' '),
        }
        assert(text@ =~= before + inline_piece_text(iv[i as int]));
        i += 1;
    }
    assert(iv.take(iv.len() as int) =~= iv);
    text
}

/// The headings of blocks, in document order, looking into quotes and list
/// items: level and plain text.
pub open spec fn headings_v(bs: Seq<BlockV>) -> Seq<(u8, Seq<char>)>
    decreases bs,
{
    if bs.len() == 0 {
        seq![]
    } else {
        block_headings(bs[0]) + headings_v(bs.subrange(1, bs.len() as int))
    }
}

/// The headings of one block.
pub open spec fn block_headings(b: BlockV) -> Seq<(u8, Seq<char>)>
    decreases b,
{
    match b {
        BlockV::Heading(level, content) => seq![(level, inline_text_v(content))],
        BlockV::Quote(bs) => headings_v(bs),
        BlockV::List(_, _, items) => items_headings(items),
        _ => seq![],
    }
}

/// The headings of list items.
pub open spec fn items_headings(items: Seq<(Option<bool>, Seq<BlockV>)>) -> Seq<(u8, Seq<char>)>
    decreases items,
{
    if items.len() == 0 {
        seq![]
    } else {
        headings_v(items[0].1) + items_headings(items.subrange(1, items.len() as int))
    }
}

/// The models of outline entries.
pub open spec fn outline_v(v: Seq<MarkdownHeading>) -> Seq<(u8, Seq<char>)> {
    v.map_values(|h: MarkdownHeading| (h.level, h.title@))
}

pub proof fn lemma_blocks_v(s: Seq<MarkdownBlock>)
    ensures
        blocks_v(s).len() == s.len(),
        forall|k: int| 0 <= k < s.len() ==> #[trigger] blocks_v(s)[k] == block_v(s[k]),
    decreases s.len(),
{
    if s.len() > 0 {
        let t = s.subrange(1, s.len() as int);
        lemma_blocks_v(t);
        assert forall|k: int| 0 <= k < s.len() implies #[trigger] blocks_v(s)[k] == block_v(s[k]) by {
            if k > 0 {
                assert(s[k] == t[k - 1]);
            }
        }
    }
}

pub proof fn lemma_items_v(s: Seq<MarkdownListItem>)
    ensures
        items_v(s).len() == s.len(),
        forall|k: int| 0 <= k < s.len() ==> #[trigger] items_v(s)[k] == (s[k].checked, blocks_v(s[k].blocks@)),
    decreases s.len(),
{
    if s.len() > 0 {
        let t = s.subrange(1, s.len() as int);
        lemma_items_v(t);
        assert forall|k: int| 0 <= k < s.len() implies #[trigger] items_v(s)[k] == (s[k].checked, blocks_v(s[k].blocks@)) by {
            if k > 0 {
                assert(s[k] == t[k - 1]);
            }
        }
    }
}

pub proof fn lemma_headings_split(s: Seq<BlockV>, k: int)
    requires
        0 <= k < s.len(),
    ensures
        headings_v(s.take(k + 1)) == headings_v(s.take(k)) + block_headings(s[k]),
    decreases k,
{
    let a = s.take(k + 1);
    if k == 0 {
        assert(s.take(0) =~= Seq::<BlockV>::empty());
        assert(a.subrange(1, 1) =~= Seq::<BlockV>::empty());
        assert(headings_v(Seq::<BlockV>::empty()) =~= Seq::<(u8, Seq<char>)>::empty());
        assert(headings_v(a) =~= block_headings(s[0]));
    } else {
        let t = s.subrange(1, s.len() as int);
        lemma_headings_split(t, k - 1);
        assert(a.subrange(1, a.len() as int) =~= t.take(k));
        assert(s.take(k).subrange(1, k) =~= t.take(k - 1));
        assert(t[k - 1] == s[k]);
        assert(headings_v(a) =~= headings_v(s.take(k)) + block_headings(s[k]));
    }
}

pub proof fn lemma_items_headings_split(s: Seq<(Option<bool>, Seq<BlockV>)>, k: int)
    requires
        0 <= k < s.len(),
    ensures
        items_headings(s.take(k + 1)) == items_headings(s.take(k)) + headings_v(s[k].1),
    decreases k,
{
    let a = s.take(k + 1);
    if k == 0 {
        assert(s.take(0) =~= Seq::<(Option<bool>, Seq<BlockV>)>::empty());
        assert(a.subrange(1, 1) =~= Seq::<(Option<bool>, Seq<BlockV>)>::empty());
        assert(items_headings(Seq::<(Option<bool>, Seq<BlockV>)>::empty()) =~= Seq::<(u8, Seq<char>)>::empty());
        assert(items_headings(a) =~= headings_v(s[0].1));
    } else {
        let t = s.subrange(1, s.len() as int);
        lemma_items_headings_split(t, k - 1);
        assert(a.subrange(1, a.len() as int) =~= t.take(k));
        assert(s.take(k).subrange(1, k) =~= t.take(k - 1));
        assert(t[k - 1] == s[k]);
        assert(items_headings(a) =~= items_headings(s.take(k)) + headings_v(s[k].1));
    }
}

/// Appends the headings of `blocks`, in document order, looking into quotes
/// and list items.
pub fn collect_headings(blocks: &[MarkdownBlock], headings: &mut Vec<MarkdownHeading>)
    ensures
        outline_v(final(headings)@) == outline_v(old(headings)@) + headings_v(blocks_v(blocks@)),
    decreases blocks@,
{
    let ghost bv = blocks_v(blocks@);
    proof {
        lemma_blocks_v(blocks@);
    }
    let ghost start = outline_v(headings@);
    let mut i: usize = 0;
    assert(bv.take(0) =~= Seq::<BlockV>::empty());
    while i < blocks.len()
        invariant
            i <= blocks.len(),
            bv == blocks_v(blocks@),
            bv.len() == blocks@.len(),
            forall|k: int| 0 <= k < blocks@.len() ==> #[trigger] bv[k] == block_v(blocks@[k]),
            outline_v(headings@) == start + headings_v(bv.take(i as int)),
        decreases blocks.len() - i,
    {
        let ghost before = outline_v(headings@);
        proof {
            lemma_headings_split(bv, i as int);
        }
        match &blocks[i] {
            MarkdownBlock::Heading { level, content } => {
                let title = inline_text(content.as_slice());
                headings.push(MarkdownHeading { level: *level, title });
                assert(outline_v(headings@) =~= before + seq![(*level, title@)]);
            },
            MarkdownBlock::Quote(content) => {
                collect_headings(content.as_slice(), headings);
            },
            MarkdownBlock::List { items, .. } => {
                let ghost iv = items_v(items@);
                proof {
                    lemma_items_v(items@);
                }
                let mut j: usize = 0;
                assert(iv.take(0) =~= Seq::<(Option<bool>, Seq<BlockV>)>::empty());
                proof {
                    assert(decreases_to!(blocks@ => blocks@[i as int]));
                    assert(decreases_to!(blocks@[i as int] => *items));
                    assert(decreases_to!(*items => items@));
                }
                while j < items.len()
                    invariant
                        decreases_to!(blocks@ => items@),
                        j <= items.len(),
                        iv == items_v(items@),
                        iv.len() == items@.len(),
                        forall|k: int| 0 <= k < items@.len() ==> #[trigger] iv[k] == (items@[k].checked, blocks_v(items@[k].blocks@)),
                        outline_v(headings@) == before + items_headings(iv.take(j as int)),
                    decreases items.len() - j,
                {
                    proof {
                        lemma_items_headings_split(iv, j as int);
                        assert(decreases_to!(items@ => items@[j as int]));
                        assert(decreases_to!(items@[j as int] => items@[j as int].blocks));
                        assert(decreases_to!(items@[j as int].blocks => items@[j as int].blocks@));
                    }
                    collect_headings(items[j].blocks.as_slice(), headings);
                    j += 1;
                }
                assert(iv.take(iv.len() as int) =~= iv);
            },
            _ => {
                assert(block_headings(bv[i as int]) =~= Seq::<(u8, Seq<char>)>::empty());
            },
        }
        assert(outline_v(headings@) =~= start + headings_v(bv.take(i + 1)));
        i += 1;
    }
    assert(bv.take(bv.len() as int) =~= bv);
}

impl MarkdownDocument {
    /// The outline of headings, in document order.
    pub fn headings(&self) -> (r: Vec<MarkdownHeading>)
        ensures
            outline_v(r@) == headings_v(blocks_v(self.blocks@)),
    {
        let mut headings: Vec<MarkdownHeading> = Vec::new();
        assert(outline_v(headings@) =~= Seq::<(u8, Seq<char>)>::empty());
        collect_headings(self.blocks.as_slice(), &mut headings);
        assert(outline_v(headings@) =~= headings_v(blocks_v(self.blocks@)));
        headings
    }
}

/// A tag opening a container, as reported by the Markdown parser.
#[derive(Debug)]
pub enum MdTag {
    Paragraph,
    /// A heading of level 1 to 6.
    Heading(u8),
    BlockQuote,
    /// A fenced code block with its info string.
    FencedCode(String),
    IndentedCode,
    /// A list, with its first number when ordered.
    List(Option<u64>),
    Item,
    Emphasis,
    Strong,
    Strikethrough,
    Link { destination: String, title: String },
    Image { destination: String, title: String },
    Table(Vec<MarkdownTableAlignment>),
    TableHead,
    TableRow,
    TableCell,
    /// Any other container.
    Other,
}

/// An event of the Markdown parser.
#[derive(Debug)]
pub enum MdEvent {
    Start(MdTag),
    End,
    Text(String),
    Code(String),
    InlineMath(String),
    DisplayMath(String),
    Html(String),
    InlineHtml(String),
    FootnoteReference(String),
    SoftBreak,
    HardBreak,
    Rule,
    TaskListMarker(bool),
}

/// The kind of a node of the raw tree built from parser events.
#[derive(Debug)]
pub enum RawKind {
    Root,
    Transparent,
    Paragraph,
    Heading(u8),
    Quote,
    CodeBlock(Option<String>),
    List(Option<u64>),
    Item,
    Emphasis,
    Strong,
    Strikethrough,
    Link { destination: String, title: Option<String> },
    Image { destination: String, title: Option<String> },
    Table(Vec<MarkdownTableAlignment>),
    TableHead,
    TableRow,
    TableCell,
    Text(String),
    Code(String),
    SoftBreak,
    HardBreak,
    TaskListMarker(bool),
    Rule,
    Html(String),
}

/// A node of the raw tree: a container or a leaf.
#[derive(Debug)]
pub struct RawNode {
    pub kind: RawKind,
    pub children: Vec<RawNode>,
}

/// Mathematical model of a [`RawKind`].
pub enum RawKindV {
    Root,
    Transparent,
    Paragraph,
    Heading(u8),
    Quote,
    CodeBlock(Option<Seq<char>>),
    List(Option<u64>),
    Item,
    Emphasis,
    Strong,
    Strikethrough,
    Link(Seq<char>, Option<Seq<char>>),
    Image(Seq<char>, Option<Seq<char>>),
    Table(Seq<MarkdownTableAlignment>),
    TableHead,
    TableRow,
    TableCell,
    Text(Seq<char>),
    Code(Seq<char>),
    SoftBreak,
    HardBreak,
    TaskListMarker(bool),
    Rule,
    Html(Seq<char>),
}

/// Mathematical model of a [`RawNode`].
pub struct RawTree {
    pub kind: RawKindV,
    pub children: Seq<RawTree>,
}

/// The model of a node kind.
pub open spec fn kind_v(k: RawKind) -> RawKindV {
    match k {
        RawKind::Root => RawKindV::Root,
        RawKind::Transparent => RawKindV::Transparent,
        RawKind::Paragraph => RawKindV::Paragraph,
        RawKind::Heading(l) => RawKindV::Heading(l),
        RawKind::Quote => RawKindV::Quote,
        RawKind::CodeBlock(l) => RawKindV::CodeBlock(opt_seq(l)),
        RawKind::List(o) => RawKindV::List(o),
        RawKind::Item => RawKindV::Item,
        RawKind::Emphasis => RawKindV::Emphasis,
        RawKind::Strong => RawKindV::Strong,
        RawKind::Strikethrough => RawKindV::Strikethrough,
        RawKind::Link { destination, title } => RawKindV::Link(destination@, opt_seq(title)),
        RawKind::Image { destination, title } => RawKindV::Image(destination@, opt_seq(title)),
        RawKind::Table(a) => RawKindV::Table(a@),
        RawKind::TableHead => RawKindV::TableHead,
        RawKind::TableRow => RawKindV::TableRow,
        RawKind::TableCell => RawKindV::TableCell,
        RawKind::Text(t) => RawKindV::Text(t@),
        RawKind::Code(t) => RawKindV::Code(t@),
        RawKind::SoftBreak => RawKindV::SoftBreak,
        RawKind::HardBreak => RawKindV::HardBreak,
        RawKind::TaskListMarker(c) => RawKindV::TaskListMarker(c),
        RawKind::Rule => RawKindV::Rule,
        RawKind::Html(t) => RawKindV::Html(t@),
    }
}

/// The model of a raw node.
pub open spec fn raw_v(n: RawNode) -> RawTree
    decreases n,
{
    RawTree { kind: kind_v(n.kind), children: raws_v(n.children@) }
}

/// The models of raw nodes.
pub open spec fn raws_v(s: Seq<RawNode>) -> Seq<RawTree>
    decreases s,
{
    if s.len() == 0 {
        seq![]
    } else {
        seq![raw_v(s[0])] + raws_v(s.subrange(1, s.len() as int))
    }
}

pub proof fn lemma_raws_v(s: Seq<RawNode>)
    ensures
        raws_v(s).len() == s.len(),
        forall|k: int| 0 <= k < s.len() ==> #[trigger] raws_v(s)[k] == raw_v(s[k]),
    decreases s.len(),
{
    if s.len() > 0 {
        let t = s.subrange(1, s.len() as int);
        lemma_raws_v(t);
        assert forall|k: int| 0 <= k < s.len() implies #[trigger] raws_v(s)[k] == raw_v(s[k]) by {
            if k > 0 {
                assert(s[k] == t[k - 1]);
            }
        }
    }
}

/// The title of a link or image: none when empty.
pub open spec fn title_v(t: Seq<char>) -> Option<Seq<char>> {
    if t.len() == 0 { None } else { Some(t) }
}

/// Mathematical model of an [`MdTag`].
pub open spec fn tag_kind_v(t: MdTag) -> RawKindV {
    match t {
        MdTag::Paragraph => RawKindV::Paragraph,
        MdTag::Heading(l) => RawKindV::Heading(l),
        MdTag::BlockQuote => RawKindV::Quote,
        MdTag::FencedCode(l) => RawKindV::CodeBlock(if l@.len() > 0 { Some(l@) } else { None }),
        MdTag::IndentedCode => RawKindV::CodeBlock(None),
        MdTag::List(o) => RawKindV::List(o),
        MdTag::Item => RawKindV::Item,
        MdTag::Emphasis => RawKindV::Emphasis,
        MdTag::Strong => RawKindV::Strong,
        MdTag::Strikethrough => RawKindV::Strikethrough,
        MdTag::Link { destination, title } => RawKindV::Link(destination@, title_v(title@)),
        MdTag::Image { destination, title } => RawKindV::Image(destination@, title_v(title@)),
        MdTag::Table(a) => RawKindV::Table(a@),
        MdTag::TableHead => RawKindV::TableHead,
        MdTag::TableRow => RawKindV::TableRow,
        MdTag::TableCell => RawKindV::TableCell,
        MdTag::Other => RawKindV::Transparent,
    }
}

/// A copy of a list of alignments.
fn copy_alignments(a: &Vec<MarkdownTableAlignment>) -> (r: Vec<MarkdownTableAlignment>)
    ensures
        r@ == a@,
{
    let mut r: Vec<MarkdownTableAlignment> = Vec::new();
    let mut i: usize = 0;
    while i < a.len()
        invariant
            i <= a.len(),
            r@ == a@.take(i as int),
        decreases a.len() - i,
    {
        r.push(a[i]);
        assert(a@.take(i + 1) =~= a@.take(i as int).push(a@[i as int]));
        i += 1;
    }
    assert(a@.take(a.len() as int) =~= a@);
    r
}

/// The kind of raw node a tag opens.
pub fn raw_kind_from_tag(tag: &MdTag) -> (r: RawKind)
    ensures
        kind_v(r) == tag_kind_v(*tag),
{
    match tag {
        MdTag::Paragraph => RawKind::Paragraph,
        MdTag::Heading(l) => RawKind::Heading(*l),
        MdTag::BlockQuote => RawKind::Quote,
        MdTag::FencedCode(l) => RawKind::CodeBlock(if l.as_str().is_empty() { None } else { Some(l.clone()) }),
        MdTag::IndentedCode => RawKind::CodeBlock(None),
        MdTag::List(o) => RawKind::List(*o),
        MdTag::Item => RawKind::Item,
        MdTag::Emphasis => RawKind::Emphasis,
        MdTag::Strong => RawKind::Strong,
        MdTag::Strikethrough => RawKind::Strikethrough,
        MdTag::Link { destination, title } => RawKind::Link {
            destination: destination.clone(),
            title: optional_string(title.clone()),
        },
        MdTag::Image { destination, title } => RawKind::Image {
            destination: destination.clone(),
            title: optional_string(title.clone()),
        },
        MdTag::Table(a) => RawKind::Table(copy_alignments(a)),
        MdTag::TableHead => RawKind::TableHead,
        MdTag::TableRow => RawKind::TableRow,
        MdTag::TableCell => RawKind::TableCell,
        MdTag::Other => RawKind::Transparent,
    }
}

/// A title, none when empty.
pub fn optional_string(value: String) -> (r: Option<String>)
    ensures
        opt_seq(r) == title_v(value@),
{
    if value.as_str().is_empty() {
        None
    } else {
        Some(value)
    }
}

/// The kind of the leaf a non-container event adds, if it adds one.
pub open spec fn leaf_kind_v(e: MdEvent) -> Option<RawKindV> {
    match e {
        MdEvent::Text(t) => Some(RawKindV::Text(t@)),
        MdEvent::Code(t) => Some(RawKindV::Code(t@)),
        MdEvent::SoftBreak => Some(RawKindV::SoftBreak),
        MdEvent::HardBreak => Some(RawKindV::HardBreak),
        MdEvent::Rule => Some(RawKindV::Rule),
        MdEvent::TaskListMarker(c) => Some(RawKindV::TaskListMarker(c)),
        MdEvent::Html(t) => Some(RawKindV::Html(t@)),
        MdEvent::InlineHtml(t) => Some(RawKindV::Html(t@)),
        MdEvent::InlineMath(m) => Some(RawKindV::Text("$"@ + m@ + "$"@)),
        MdEvent::DisplayMath(m) => Some(RawKindV::Text("$$"@ + m@ + "$$"@)),
        MdEvent::FootnoteReference(r) => Some(RawKindV::Text("[^"@ + r@ + "]"@)),
        _ => None,
    }
}

/// `t` with `c` added as the last child.
pub open spec fn with_child(t: RawTree, c: RawTree) -> RawTree {
    RawTree { kind: t.kind, children: t.children.push(c) }
}

/// The open containers after one event: a start opens a container, an end
/// closes the innermost one into its parent (the root is never closed), and
/// other events add a leaf to the innermost container.
pub open spec fn tree_step(stack: Seq<RawTree>, e: MdEvent) -> Seq<RawTree> {
    match e {
        MdEvent::Start(t) => stack.push(RawTree { kind: tag_kind_v(t), children: seq![] }),
        MdEvent::End => if stack.len() > 1 {
            let rest = stack.drop_last();
            rest.update(rest.len() - 1, with_child(rest.last(), stack.last()))
        } else {
            stack
        },
        _ => match leaf_kind_v(e) {
            Some(k) => if stack.len() > 0 {
                stack.update(stack.len() - 1, with_child(stack.last(), RawTree { kind: k, children: seq![] }))
            } else {
                stack
            },
            None => stack,
        },
    }
}

/// The open containers after the events `es`, starting from the root.
pub open spec fn tree_after(es: Seq<MdEvent>) -> Seq<RawTree>
    decreases es.len(),
{
    if es.len() == 0 {
        seq![RawTree { kind: RawKindV::Root, children: seq![] }]
    } else {
        tree_step(tree_after(es.drop_last()), es.last())
    }
}

pub proof fn lemma_tree_after_nonempty(es: Seq<MdEvent>)
    ensures
        tree_after(es).len() >= 1,
    decreases es.len(),
{
    if es.len() > 0 {
        lemma_tree_after_nonempty(es.drop_last());
    }
}

impl RawNode {
    /// A node without children.
    pub fn new(kind: RawKind) -> (r: Self)
        ensures
            raw_v(r) == (RawTree { kind: kind_v(kind), children: seq![] }),
    {
        let r = RawNode { kind, children: Vec::new() };
        assert(raws_v(r.children@) =~= Seq::<RawTree>::empty());
        r
    }
}

/// Adds a leaf to the innermost open container.
pub fn append_leaf(stack: &mut Vec<RawNode>, kind: RawKind)
    ensures
        raws_v(final(stack)@) == if old(stack)@.len() > 0 {
            raws_v(old(stack)@).update(
                old(stack)@.len() - 1,
                with_child(raws_v(old(stack)@).last(), RawTree { kind: kind_v(kind), children: seq![] }),
            )
        } else {
            raws_v(old(stack)@)
        },
{
    proof {
        lemma_raws_v(stack@);
    }
    let n = stack.len();
    if n > 0 {
        let leaf = RawNode::new(kind);
        let ghost lv = raw_v(leaf);
        let ghost old_last = stack@[n - 1];
        stack[n - 1].children.push(leaf);
        proof {
            let new_last = stack@[n - 1];
            lemma_raws_v(old_last.children@);
            lemma_raws_v(new_last.children@);
            assert(new_last.children@ == old_last.children@.push(leaf));
            assert(raws_v(new_last.children@) =~= raws_v(old_last.children@).push(lv));
            lemma_raws_v(stack@);
            assert(raws_v(stack@) =~= raws_v(old(stack)@).update(
                n - 1,
                with_child(raws_v(old(stack)@).last(), lv),
            ));
        }
    }
}

/// The kind of the leaf an event adds, for events that add one.
fn leaf_kind(e: &MdEvent) -> (r: Option<RawKind>)
    ensures
        match r {
            Some(k) => leaf_kind_v(*e) == Some(kind_v(k)),
            None => leaf_kind_v(*e) is None,
        },
{
    match e {
        MdEvent::Text(t) => Some(RawKind::Text(t.clone())),
        MdEvent::Code(t) => Some(RawKind::Code(t.clone())),
        MdEvent::SoftBreak => Some(RawKind::SoftBreak),
        MdEvent::HardBreak => Some(RawKind::HardBreak),
        MdEvent::Rule => Some(RawKind::Rule),
        MdEvent::TaskListMarker(c) => Some(RawKind::TaskListMarker(*c)),
        MdEvent::Html(t) => Some(RawKind::Html(t.clone())),
        MdEvent::InlineHtml(t) => Some(RawKind::Html(t.clone())),
        MdEvent::InlineMath(m) => {
            let mut s = String::from_str("$");
            s.append(m.as_str());
            s.append("$");
            Some(RawKind::Text(s))
        },
        MdEvent::DisplayMath(m) => {
            let mut s = String::from_str("$$");
            s.append(m.as_str());
            s.append("$$");
            Some(RawKind::Text(s))
        },
        MdEvent::FootnoteReference(r) => {
            let mut s = String::from_str("[^");
            s.append(r.as_str());
            s.append("]");
            Some(RawKind::Text(s))
        },
        _ => None,
    }
}

impl RawNode {
    /// The tree of containers and leaves that the events describe, rooted at
    /// a root node; unbalanced ends never close the root.
    pub fn from_events(events: &Vec<MdEvent>) -> (r: RawNode)
        ensures
            raw_v(r) == tree_after(events@)[0],
    {
        let mut stack: Vec<RawNode> = Vec::new();
        stack.push(RawNode::new(RawKind::Root));
        assert(raws_v(stack@) =~= tree_after(events@.take(0))) by {
            lemma_raws_v(stack@);
            assert(events@.take(0) =~= Seq::<MdEvent>::empty());
        }
        let mut i: usize = 0;
        while i < events.len()
            invariant
                i <= events.len(),
                stack@.len() >= 1,
                raws_v(stack@) == tree_after(events@.take(i as int)),
            decreases events.len() - i,
        {
            assert(events@.take(i + 1).drop_last() =~= events@.take(i as int));
            assert(events@.take(i + 1).last() == events@[i as int]);
            let ghost before = raws_v(stack@);
            proof {
                lemma_raws_v(stack@);
            }
            match &events[i] {
                MdEvent::Start(tag) => {
                    let node = RawNode::new(raw_kind_from_tag(tag));
                    stack.push(node);
                    proof {
                        lemma_raws_v(stack@);
                        assert(raws_v(stack@) =~= before.push(raw_v(node)));
                    }
                },
                MdEvent::End => {
                    if stack.len() > 1 {
                        let ghost old_stack = stack@;
                        let node = stack.pop().unwrap();
                        let k = stack.len() - 1;
                        let ghost parent = stack@[k as int];
                        stack[k].children.push(node);
                        proof {
                            lemma_raws_v(old_stack);
                            lemma_raws_v(stack@);
                            lemma_raws_v(parent.children@);
                            lemma_raws_v(stack@[k as int].children@);
                            assert(raws_v(stack@[k as int].children@) =~= raws_v(parent.children@).push(raw_v(node)));
                            assert(raws_v(stack@) =~= before.drop_last().update(
                                before.drop_last().len() - 1,
                                with_child(before.drop_last().last(), before.last()),
                            ));
                        }
                    }
                },
                _ => {
                    match leaf_kind(&events[i]) {
                        Some(k) => append_leaf(&mut stack, k),
                        None => {},
                    }
                },
            }
            i += 1;
        }
        assert(events@.take(events.len() as int) =~= events@);
        proof {
            lemma_raws_v(stack@);
        }
        stack.remove(0)
    }
}

/// The text of a node: its own text, a line break for a break, the task
/// marker as "[x] " or "[ ] ", or the texts of its children.
pub open spec fn collect_text_v(n: RawTree) -> Seq<char>
    decreases n,
{
    match n.kind {
        RawKindV::Text(v) => v,
        RawKindV::Code(v) => v,
        RawKindV::Html(v) => v,
        RawKindV::SoftBreak => seq!['\n'],
        RawKindV::HardBreak => seq!['\n'],
        RawKindV::TaskListMarker(c) => if c { "[x] "@ } else { "[ ] "@ },
        _ => children_text_v(n.children),
    }
}

/// The texts of nodes, one after the other.
pub open spec fn children_text_v(s: Seq<RawTree>) -> Seq<char>
    decreases s,
{
    if s.len() == 0 {
        seq![]
    } else {
        children_text_v(s.subrange(0, s.len() - 1)) + collect_text_v(s[s.len() - 1])
    }
}

/// The inline content of nodes.
pub open spec fn build_inlines_v(s: Seq<RawTree>) -> Seq<InlineV>
    decreases s,
{
    if s.len() == 0 {
        seq![]
    } else {
        build_inlines_v(s.subrange(0, s.len() - 1)) + node_inlines_v(s[s.len() - 1])
    }
}

/// The inline content of one node: inline nodes give one element, task
/// markers nothing, and other containers the content of their children.
pub open spec fn node_inlines_v(n: RawTree) -> Seq<InlineV>
    decreases n,
{
    match n.kind {
        RawKindV::Text(t) => seq![InlineV::Text(t)],
        RawKindV::Emphasis => seq![InlineV::Emphasis(build_inlines_v(n.children))],
        RawKindV::Strong => seq![InlineV::Strong(build_inlines_v(n.children))],
        RawKindV::Strikethrough => seq![InlineV::Strikethrough(build_inlines_v(n.children))],
        RawKindV::Code(c) => seq![InlineV::Code(c)],
        RawKindV::Link(d, t) => seq![InlineV::Link(d, t, build_inlines_v(n.children))],
        RawKindV::Image(d, t) => seq![InlineV::Image(d, t, collect_text_v(n))],
        RawKindV::SoftBreak => seq![InlineV::SoftBreak],
        RawKindV::HardBreak => seq![InlineV::HardBreak],
        RawKindV::Html(h) => seq![InlineV::Html(h)],
        RawKindV::TaskListMarker(_) => seq![],
        _ => build_inlines_v(n.children),
    }
}

/// The cells of a table row: the inline content of each cell node.
pub open spec fn table_row_v(s: Seq<RawTree>) -> Seq<Seq<InlineV>>
    decreases s,
{
    if s.len() == 0 {
        seq![]
    } else {
        let n = s[s.len() - 1];
        table_row_v(s.subrange(0, s.len() - 1)) + if n.kind is TableCell {
            seq![build_inlines_v(n.children)]
        } else {
            seq![]
        }
    }
}

/// The header cells of a table: those of its last head.
pub open spec fn table_headers_v(s: Seq<RawTree>) -> Seq<Seq<InlineV>>
    decreases s,
{
    if s.len() == 0 {
        seq![]
    } else if s[s.len() - 1].kind is TableHead {
        table_row_v(s[s.len() - 1].children)
    } else {
        table_headers_v(s.subrange(0, s.len() - 1))
    }
}

/// The body rows of a table.
pub open spec fn table_rows_v(s: Seq<RawTree>) -> Seq<Seq<Seq<InlineV>>>
    decreases s,
{
    if s.len() == 0 {
        seq![]
    } else {
        let n = s[s.len() - 1];
        table_rows_v(s.subrange(0, s.len() - 1)) + if n.kind is TableRow {
            seq![table_row_v(n.children)]
        } else {
            seq![]
        }
    }
}

/// The task marker of a list item: the first one met in document order,
/// not looking into nested lists.
pub open spec fn task_marker_v(s: Seq<RawTree>) -> Option<bool>
    decreases s,
{
    if s.len() == 0 {
        None
    } else {
        let rest = s.subrange(1, s.len() as int);
        match s[0].kind {
            RawKindV::TaskListMarker(c) => Some(c),
            RawKindV::List(_) => task_marker_v(rest),
            _ => match task_marker_v(s[0].children) {
                Some(c) => Some(c),
                None => task_marker_v(rest),
            },
        }
    }
}

/// The blocks of nodes.
pub open spec fn build_blocks_v(s: Seq<RawTree>) -> Seq<BlockV>
    decreases s,
{
    if s.len() == 0 {
        seq![]
    } else {
        build_blocks_v(s.subrange(0, s.len() - 1)) + node_blocks_v(s[s.len() - 1])
    }
}

/// The items of a list: one per item node.
pub open spec fn list_items_v(s: Seq<RawTree>) -> Seq<(Option<bool>, Seq<BlockV>)>
    decreases s,
{
    if s.len() == 0 {
        seq![]
    } else {
        let n = s[s.len() - 1];
        list_items_v(s.subrange(0, s.len() - 1)) + if n.kind is Item {
            seq![(task_marker_v(n.children), build_blocks_v(n.children))]
        } else {
            seq![]
        }
    }
}

/// The blocks of one node: block nodes give one block (a table only when it
/// has a head or a row), text and HTML outside paragraphs a paragraph, other
/// containers the blocks of their children, inline nodes nothing.
pub open spec fn node_blocks_v(n: RawTree) -> Seq<BlockV>
    decreases n,
{
    match n.kind {
        RawKindV::Paragraph => seq![BlockV::Paragraph(build_inlines_v(n.children))],
        RawKindV::Heading(l) => seq![BlockV::Heading(l, build_inlines_v(n.children))],
        RawKindV::Quote => seq![BlockV::Quote(build_blocks_v(n.children))],
        RawKindV::List(o) => seq![BlockV::List(
            o is Some,
            match o {
                Some(v) => v,
                None => 1,
            },
            list_items_v(n.children),
        )],
        RawKindV::CodeBlock(l) => seq![BlockV::CodeBlock(l, collect_text_v(n))],
        RawKindV::Table(al) => {
            let h = table_headers_v(n.children);
            let r = table_rows_v(n.children);
            if h.len() == 0 && r.len() == 0 {
                seq![]
            } else {
                seq![BlockV::Table(al, h, r)]
            }
        },
        RawKindV::Rule => seq![BlockV::ThematicBreak],
        RawKindV::Transparent => build_blocks_v(n.children),
        RawKindV::Root => build_blocks_v(n.children),
        RawKindV::Text(t) => seq![BlockV::Paragraph(seq![InlineV::Text(t)])],
        RawKindV::Html(h) => seq![BlockV::Paragraph(seq![InlineV::Html(h)])],
        _ => seq![],
    }
}

pub proof fn lemma_cells_v(s: Seq<Vec<MarkdownInline>>)
    ensures
        cells_v(s).len() == s.len(),
        forall|k: int| 0 <= k < s.len() ==> #[trigger] cells_v(s)[k] == inlines_v(s[k]@),
    decreases s.len(),
{
    if s.len() > 0 {
        let t = s.subrange(1, s.len() as int);
        lemma_cells_v(t);
        assert forall|k: int| 0 <= k < s.len() implies #[trigger] cells_v(s)[k] == inlines_v(s[k]@) by {
            if k > 0 {
                assert(s[k] == t[k - 1]);
            }
        }
    }
}

pub proof fn lemma_rows_v(s: Seq<Vec<Vec<MarkdownInline>>>)
    ensures
        rows_v(s).len() == s.len(),
        forall|k: int| 0 <= k < s.len() ==> #[trigger] rows_v(s)[k] == cells_v(s[k]@),
    decreases s.len(),
{
    if s.len() > 0 {
        let t = s.subrange(1, s.len() as int);
        lemma_rows_v(t);
        assert forall|k: int| 0 <= k < s.len() implies #[trigger] rows_v(s)[k] == cells_v(s[k]@) by {
            if k > 0 {
                assert(s[k] == t[k - 1]);
            }
        }
    }
}

pub proof fn lemma_inlines_v_concat(a: Seq<MarkdownInline>, b: Seq<MarkdownInline>)
    ensures
        inlines_v(a + b) == inlines_v(a) + inlines_v(b),
{
    lemma_inlines_v(a);
    lemma_inlines_v(b);
    lemma_inlines_v(a + b);
    assert forall|k: int| 0 <= k < (a + b).len() implies #[trigger] inlines_v(a + b)[k] == (inlines_v(a) + inlines_v(b))[k] by {
        if k < a.len() {
            assert((a + b)[k] == a[k]);
        } else {
            assert((a + b)[k] == b[k - a.len()]);
        }
    }
    assert(inlines_v(a + b) =~= inlines_v(a) + inlines_v(b));
}

pub proof fn lemma_blocks_v_concat(a: Seq<MarkdownBlock>, b: Seq<MarkdownBlock>)
    ensures
        blocks_v(a + b) == blocks_v(a) + blocks_v(b),
{
    lemma_blocks_v(a);
    lemma_blocks_v(b);
    lemma_blocks_v(a + b);
    assert forall|k: int| 0 <= k < (a + b).len() implies #[trigger] blocks_v(a + b)[k] == (blocks_v(a) + blocks_v(b))[k] by {
        if k < a.len() {
            assert((a + b)[k] == a[k]);
        } else {
            assert((a + b)[k] == b[k - a.len()]);
        }
    }
    assert(blocks_v(a + b) =~= blocks_v(a) + blocks_v(b));
}

pub proof fn lemma_items_v_concat(a: Seq<MarkdownListItem>, b: Seq<MarkdownListItem>)
    ensures
        items_v(a + b) == items_v(a) + items_v(b),
{
    lemma_items_v(a);
    lemma_items_v(b);
    lemma_items_v(a + b);
    assert forall|k: int| 0 <= k < (a + b).len() implies #[trigger] items_v(a + b)[k] == (items_v(a) + items_v(b))[k] by {
        if k < a.len() {
            assert((a + b)[k] == a[k]);
        } else {
            assert((a + b)[k] == b[k - a.len()]);
        }
    }
    assert(items_v(a + b) =~= items_v(a) + items_v(b));
}

pub proof fn lemma_cells_v_concat(a: Seq<Vec<MarkdownInline>>, b: Seq<Vec<MarkdownInline>>)
    ensures
        cells_v(a + b) == cells_v(a) + cells_v(b),
{
    lemma_cells_v(a);
    lemma_cells_v(b);
    lemma_cells_v(a + b);
    assert forall|k: int| 0 <= k < (a + b).len() implies #[trigger] cells_v(a + b)[k] == (cells_v(a) + cells_v(b))[k] by {
        if k < a.len() {
            assert((a + b)[k] == a[k]);
        } else {
            assert((a + b)[k] == b[k - a.len()]);
        }
    }
    assert(cells_v(a + b) =~= cells_v(a) + cells_v(b));
}

pub proof fn lemma_rows_v_concat(a: Seq<Vec<Vec<MarkdownInline>>>, b: Seq<Vec<Vec<MarkdownInline>>>)
    ensures
        rows_v(a + b) == rows_v(a) + rows_v(b),
{
    lemma_rows_v(a);
    lemma_rows_v(b);
    lemma_rows_v(a + b);
    assert forall|k: int| 0 <= k < (a + b).len() implies #[trigger] rows_v(a + b)[k] == (rows_v(a) + rows_v(b))[k] by {
        if k < a.len() {
            assert((a + b)[k] == a[k]);
        } else {
            assert((a + b)[k] == b[k - a.len()]);
        }
    }
    assert(rows_v(a + b) =~= rows_v(a) + rows_v(b));
}

/// Appends the text of a node.
pub fn collect_text_into(node: &RawNode, output: &mut String)
    ensures
        final(output)@ == old(output)@ + collect_text_v(raw_v(*node)),
    decreases node,
{
    match &node.kind {
        RawKind::Text(v) => output.append(v.as_str()),
        RawKind::Code(v) => output.append(v.as_str()),
        RawKind::Html(v) => output.append(v.as_str()),
        RawKind::SoftBreak => crate::text::push_char(output, '\n'),
        RawKind::HardBreak => crate::text::push_char(output, '\n'),
        RawKind::TaskListMarker(checked) => {
            if *checked {
                output.append("[x] ");
            } else {
                output.append("[ ] ");
            }
        },
        _ => {
            let ghost cv = raws_v(node.children@);
            let ghost start = output@;
            proof {
                lemma_raws_v(node.children@);
                assert(cv.take(0) =~= Seq::<RawTree>::empty());
                assert(decreases_to!(*node => node.children));
                assert(decreases_to!(node.children => node.children@));
            }
            let mut j: usize = 0;
            while j < node.children.len()
                invariant
                    j <= node.children.len(),
                    cv == raws_v(node.children@),
                    cv.len() == node.children@.len(),
                    forall|k: int| 0 <= k < node.children@.len() ==> #[trigger] cv[k] == raw_v(node.children@[k]),
                    output@ == start + children_text_v(cv.take(j as int)),
                    decreases_to!(*node => node.children@),
                decreases node.children.len() - j,
            {
                proof {
                    assert(decreases_to!(node.children@ => node.children@[j as int]));
                    let t = cv.take(j + 1);
                    assert(t.subrange(0, j as int) =~= cv.take(j as int));
                    assert(t[j as int] == cv[j as int]);
                }
                collect_text_into(&node.children[j], output);
                j += 1;
            }
            assert(cv.take(cv.len() as int) =~= cv);
        },
    }
}

/// The text of a node.
pub fn collect_text(node: &RawNode) -> (r: String)
    ensures
        r@ == collect_text_v(raw_v(*node)),
{
    let mut text = String::new();
    collect_text_into(node, &mut text);
    assert(text@ =~= collect_text_v(raw_v(*node)));
    text
}

/// The inline content of nodes.
pub fn build_inlines(nodes: &[RawNode]) -> (r: Vec<MarkdownInline>)
    ensures
        inlines_v(r@) == build_inlines_v(raws_v(nodes@)),
    decreases nodes@,
{
    let ghost t = raws_v(nodes@);
    proof {
        lemma_raws_v(nodes@);
    }
    let mut out: Vec<MarkdownInline> = Vec::new();
    let mut i: usize = 0;
    assert(t.take(0) =~= Seq::<RawTree>::empty());
    assert(inlines_v(out@) =~= Seq::<InlineV>::empty());
    while i < nodes.len()
        invariant
            i <= nodes.len(),
            t == raws_v(nodes@),
            t.len() == nodes@.len(),
            forall|k: int| 0 <= k < nodes@.len() ==> #[trigger] t[k] == raw_v(nodes@[k]),
            inlines_v(out@) == build_inlines_v(t.take(i as int)),
        decreases nodes.len() - i,
    {
        let node = &nodes[i];
        let ghost before = out@;
        proof {
            let tt = t.take(i + 1);
            assert(tt.subrange(0, i as int) =~= t.take(i as int));
            assert(tt[i as int] == raw_v(*node));
            assert(decreases_to!(nodes@ => nodes@[i as int]));
            assert(decreases_to!(nodes@[i as int] => node.children));
            assert(decreases_to!(node.children => node.children@));
            lemma_raws_v(node.children@);
        }
        let mut piece: Vec<MarkdownInline> = Vec::new();
        match &node.kind {
            RawKind::Text(v) => piece.push(MarkdownInline::Text(v.clone())),
            RawKind::Emphasis => piece.push(MarkdownInline::Emphasis(build_inlines(node.children.as_slice()))),
            RawKind::Strong => piece.push(MarkdownInline::Strong(build_inlines(node.children.as_slice()))),
            RawKind::Strikethrough => piece.push(MarkdownInline::Strikethrough(build_inlines(node.children.as_slice()))),
            RawKind::Code(v) => piece.push(MarkdownInline::Code(v.clone())),
            RawKind::Link { destination, title } => {
                let content = build_inlines(node.children.as_slice());
                piece.push(MarkdownInline::Link { destination: destination.clone(), title: copy_opt(title), content });
            },
            RawKind::Image { destination, title } => {
                let alt = collect_text(node);
                piece.push(MarkdownInline::Image { destination: destination.clone(), title: copy_opt(title), alt });
            },
            RawKind::SoftBreak => piece.push(MarkdownInline::SoftBreak),
            RawKind::HardBreak => piece.push(MarkdownInline::HardBreak),
            RawKind::Html(v) => piece.push(MarkdownInline::Html(v.clone())),
            RawKind::TaskListMarker(_) => {},
            _ => {
                piece = build_inlines(node.children.as_slice());
            },
        }
        proof {
            lemma_inlines_v(piece@);
            assert(inlines_v(piece@) =~= node_inlines_v(raw_v(*node)));
            lemma_inlines_v_concat(before, piece@);
        }
        out.append(&mut piece);
        i += 1;
    }
    assert(t.take(t.len() as int) =~= t);
    out
}

/// A copy of an optional string.
fn copy_opt(o: &Option<String>) -> (r: Option<String>)
    ensures
        opt_seq(r) == opt_seq(*o),
{
    match o {
        Some(s) => Some(s.clone()),
        None => None,
    }
}

/// The cells of a table row.
pub fn build_table_row(nodes: &[RawNode]) -> (r: Vec<Vec<MarkdownInline>>)
    ensures
        cells_v(r@) == table_row_v(raws_v(nodes@)),
{
    let ghost t = raws_v(nodes@);
    proof {
        lemma_raws_v(nodes@);
    }
    let mut out: Vec<Vec<MarkdownInline>> = Vec::new();
    let mut i: usize = 0;
    assert(t.take(0) =~= Seq::<RawTree>::empty());
    assert(cells_v(out@) =~= Seq::<Seq<InlineV>>::empty());
    while i < nodes.len()
        invariant
            i <= nodes.len(),
            t == raws_v(nodes@),
            t.len() == nodes@.len(),
            forall|k: int| 0 <= k < nodes@.len() ==> #[trigger] t[k] == raw_v(nodes@[k]),
            cells_v(out@) == table_row_v(t.take(i as int)),
        decreases nodes.len() - i,
    {
        let node = &nodes[i];
        let ghost before = out@;
        proof {
            let tt = t.take(i + 1);
            assert(tt.subrange(0, i as int) =~= t.take(i as int));
            assert(tt[i as int] == raw_v(*node));
        }
        if matches!(node.kind, RawKind::TableCell) {
            let cell = build_inlines(node.children.as_slice());
            out.push(cell);
            proof {
                lemma_cells_v_concat(before, seq![cell]);
                assert(before + seq![cell] =~= out@);
                lemma_cells_v(seq![cell]);
                assert(cells_v(seq![cell]) =~= seq![inlines_v(cell@)]);
            }
        } else {
            assert(table_row_v(t.take(i + 1)) =~= table_row_v(t.take(i as int)));
        }
        i += 1;
    }
    assert(t.take(t.len() as int) =~= t);
    out
}

/// A table: the cells of its last head and of its rows; none when it has
/// neither.
pub fn build_table(node: &RawNode, alignments: &[MarkdownTableAlignment]) -> (r: Option<MarkdownBlock>)
    ensures
        ({
            let h = table_headers_v(raw_v(*node).children);
            let rs = table_rows_v(raw_v(*node).children);
            match r {
                Some(b) => !(h.len() == 0 && rs.len() == 0) && block_v(b) == BlockV::Table(alignments@, h, rs),
                None => h.len() == 0 && rs.len() == 0,
            }
        }),
{
    let ghost t = raws_v(node.children@);
    proof {
        lemma_raws_v(node.children@);
    }
    let mut headers: Vec<Vec<MarkdownInline>> = Vec::new();
    let mut rows: Vec<Vec<Vec<MarkdownInline>>> = Vec::new();
    let mut i: usize = 0;
    assert(t.take(0) =~= Seq::<RawTree>::empty());
    assert(cells_v(headers@) =~= Seq::<Seq<InlineV>>::empty());
    assert(rows_v(rows@) =~= Seq::<Seq<Seq<InlineV>>>::empty());
    while i < node.children.len()
        invariant
            i <= node.children.len(),
            t == raws_v(node.children@),
            t.len() == node.children@.len(),
            forall|k: int| 0 <= k < node.children@.len() ==> #[trigger] t[k] == raw_v(node.children@[k]),
            cells_v(headers@) == table_headers_v(t.take(i as int)),
            rows_v(rows@) == table_rows_v(t.take(i as int)),
        decreases node.children.len() - i,
    {
        let child = &node.children[i];
        let ghost before = rows@;
        proof {
            let tt = t.take(i + 1);
            assert(tt.subrange(0, i as int) =~= t.take(i as int));
            assert(tt[i as int] == raw_v(*child));
        }
        if matches!(child.kind, RawKind::TableHead) {
            headers = build_table_row(child.children.as_slice());
            assert(table_rows_v(t.take(i + 1)) =~= table_rows_v(t.take(i as int)));
        } else if matches!(child.kind, RawKind::TableRow) {
            let row = build_table_row(child.children.as_slice());
            rows.push(row);
            proof {
                lemma_rows_v_concat(before, seq![row]);
                assert(before + seq![row] =~= rows@);
                lemma_rows_v(seq![row]);
                assert(rows_v(seq![row]) =~= seq![cells_v(row@)]);
            }
        } else {
            assert(table_rows_v(t.take(i + 1)) =~= table_rows_v(t.take(i as int)));
        }
        i += 1;
    }
    assert(t.take(t.len() as int) =~= t);
    if headers.len() == 0 && rows.len() == 0 {
        proof {
            lemma_cells_v(headers@);
            lemma_rows_v(rows@);
        }
        None
    } else {
        proof {
            lemma_cells_v(headers@);
            lemma_rows_v(rows@);
        }
        Some(MarkdownBlock::Table { alignments: copy_alignments_slice(alignments), headers, rows })
    }
}

/// A copy of a slice of alignments.
fn copy_alignments_slice(a: &[MarkdownTableAlignment]) -> (r: Vec<MarkdownTableAlignment>)
    ensures
        r@ == a@,
{
    let mut r: Vec<MarkdownTableAlignment> = Vec::new();
    let mut i: usize = 0;
    while i < a.len()
        invariant
            i <= a.len(),
            r@ == a@.take(i as int),
        decreases a.len() - i,
    {
        r.push(a[i]);
        assert(a@.take(i + 1) =~= a@.take(i as int).push(a@[i as int]));
        i += 1;
    }
    assert(a@.take(a.len() as int) =~= a@);
    r
}

/// The task marker of a list item: the first one met in document order,
/// not looking into nested lists.
pub fn find_task_marker(nodes: &[RawNode]) -> (r: Option<bool>)
    ensures
        r == task_marker_v(raws_v(nodes@)),
    decreases nodes@,
{
    let ghost t = raws_v(nodes@);
    proof {
        lemma_raws_v(nodes@);
        assert(t.skip(0) =~= t);
    }
    let mut i: usize = 0;
    while i < nodes.len()
        invariant
            i <= nodes.len(),
            t == raws_v(nodes@),
            t.len() == nodes@.len(),
            forall|k: int| 0 <= k < nodes@.len() ==> #[trigger] t[k] == raw_v(nodes@[k]),
            task_marker_v(t) == task_marker_v(t.skip(i as int)),
        decreases nodes.len() - i,
    {
        let node = &nodes[i];
        proof {
            let ts = t.skip(i as int);
            assert(ts[0] == raw_v(*node));
            assert(ts.subrange(1, ts.len() as int) =~= t.skip(i + 1));
            assert(decreases_to!(nodes@ => nodes@[i as int]));
            assert(decreases_to!(nodes@[i as int] => node.children));
            assert(decreases_to!(node.children => node.children@));
        }
        match &node.kind {
            RawKind::TaskListMarker(checked) => {
                return Some(*checked);
            },
            RawKind::List(_) => {},
            _ => {
                match find_task_marker(node.children.as_slice()) {
                    Some(c) => {
                        return Some(c);
                    },
                    None => {},
                }
            },
        }
        i += 1;
    }
    assert(t.skip(i as int) =~= Seq::<RawTree>::empty());
    None
}

/// The item of an item node; none for any other node.
pub fn build_list_item(node: &RawNode) -> (r: Option<MarkdownListItem>)
    ensures
        match r {
            Some(item) => raw_v(*node).kind is Item && item.checked == task_marker_v(raw_v(*node).children)
                && blocks_v(item.blocks@) == build_blocks_v(raw_v(*node).children),
            None => !(raw_v(*node).kind is Item),
        },
    decreases node,
{
    if !matches!(node.kind, RawKind::Item) {
        return None;
    }
    proof {
        assert(decreases_to!(*node => node.children));
        assert(decreases_to!(node.children => node.children@));
    }
    let checked = find_task_marker(node.children.as_slice());
    let blocks = build_blocks(node.children.as_slice());
    Some(MarkdownListItem { checked, blocks })
}

/// The blocks of nodes.
pub fn build_blocks(nodes: &[RawNode]) -> (r: Vec<MarkdownBlock>)
    ensures
        blocks_v(r@) == build_blocks_v(raws_v(nodes@)),
    decreases nodes@,
{
    let ghost t = raws_v(nodes@);
    proof {
        lemma_raws_v(nodes@);
    }
    let mut out: Vec<MarkdownBlock> = Vec::new();
    let mut i: usize = 0;
    assert(t.take(0) =~= Seq::<RawTree>::empty());
    assert(blocks_v(out@) =~= Seq::<BlockV>::empty());
    while i < nodes.len()
        invariant
            i <= nodes.len(),
            t == raws_v(nodes@),
            t.len() == nodes@.len(),
            forall|k: int| 0 <= k < nodes@.len() ==> #[trigger] t[k] == raw_v(nodes@[k]),
            blocks_v(out@) == build_blocks_v(t.take(i as int)),
        decreases nodes.len() - i,
    {
        let node = &nodes[i];
        let ghost before = out@;
        proof {
            let tt = t.take(i + 1);
            assert(tt.subrange(0, i as int) =~= t.take(i as int));
            assert(tt[i as int] == raw_v(*node));
            assert(decreases_to!(nodes@ => nodes@[i as int]));
            assert(decreases_to!(nodes@[i as int] => node.children));
            assert(decreases_to!(node.children => node.children@));
            lemma_raws_v(node.children@);
        }
        let mut piece: Vec<MarkdownBlock> = Vec::new();
        match &node.kind {
            RawKind::Paragraph => {
                piece.push(MarkdownBlock::Paragraph(build_inlines(node.children.as_slice())));
            },
            RawKind::Heading(level) => {
                piece.push(MarkdownBlock::Heading { level: *level, content: build_inlines(node.children.as_slice()) });
            },
            RawKind::Quote => {
                piece.push(MarkdownBlock::Quote(build_blocks(node.children.as_slice())));
            },
            RawKind::List(ordered) => {
                let ghost ct = raws_v(node.children@);
                let mut items: Vec<MarkdownListItem> = Vec::new();
                let mut j: usize = 0;
                assert(ct.take(0) =~= Seq::<RawTree>::empty());
                assert(items_v(items@) =~= Seq::<(Option<bool>, Seq<BlockV>)>::empty());
                while j < node.children.len()
                    invariant
                        j <= node.children.len(),
                        ct == raws_v(node.children@),
                        ct.len() == node.children@.len(),
                        forall|k: int| 0 <= k < node.children@.len() ==> #[trigger] ct[k] == raw_v(node.children@[k]),
                        items_v(items@) == list_items_v(ct.take(j as int)),
                        decreases_to!(nodes@ => node.children@),
                    decreases node.children.len() - j,
                {
                    let ghost ib = items@;
                    proof {
                        let tt = ct.take(j + 1);
                        assert(tt.subrange(0, j as int) =~= ct.take(j as int));
                        assert(tt[j as int] == raw_v(node.children@[j as int]));
                        assert(decreases_to!(node.children@ => node.children@[j as int]));
                    }
                    match build_list_item(&node.children[j]) {
                        Some(item) => {
                            items.push(item);
                            proof {
                                lemma_items_v_concat(ib, seq![item]);
                                assert(ib + seq![item] =~= items@);
                                lemma_items_v(seq![item]);
                            }
                        },
                        None => {
                            assert(list_items_v(ct.take(j + 1)) =~= list_items_v(ct.take(j as int)));
                        },
                    }
                    j += 1;
                }
                assert(ct.take(ct.len() as int) =~= ct);
                let start = match ordered {
                    Some(v) => *v,
                    None => 1,
                };
                piece.push(MarkdownBlock::List { ordered: ordered.is_some(), start, items });
            },
            RawKind::CodeBlock(language) => {
                let content = collect_text(node);
                piece.push(MarkdownBlock::CodeBlock { language: copy_opt(language), content });
            },
            RawKind::Table(alignments) => {
                match build_table(node, alignments.as_slice()) {
                    Some(table) => piece.push(table),
                    None => {},
                }
            },
            RawKind::Rule => piece.push(MarkdownBlock::ThematicBreak),
            RawKind::Transparent => {
                piece = build_blocks(node.children.as_slice());
            },
            RawKind::Root => {
                piece = build_blocks(node.children.as_slice());
            },
            RawKind::Text(v) => {
                let content = vec![MarkdownInline::Text(v.clone())];
                proof {
                    lemma_inlines_v(content@);
                    assert(inlines_v(content@) =~= seq![InlineV::Text(v@)]);
                }
                piece.push(MarkdownBlock::Paragraph(content));
            },
            RawKind::Html(v) => {
                let content = vec![MarkdownInline::Html(v.clone())];
                proof {
                    lemma_inlines_v(content@);
                    assert(inlines_v(content@) =~= seq![InlineV::Html(v@)]);
                }
                piece.push(MarkdownBlock::Paragraph(content));
            },
            _ => {},
        }
        proof {
            lemma_blocks_v(piece@);
            assert(blocks_v(piece@) =~= node_blocks_v(raw_v(*node)));
            lemma_blocks_v_concat(before, piece@);
        }
        out.append(&mut piece);
        i += 1;
    }
    assert(t.take(t.len() as int) =~= t);
    out
}

impl MarkdownDocument {
    /// The document that parser events describe.
    pub fn from_events(events: &Vec<MdEvent>) -> (r: Self)
        ensures
            blocks_v(r.blocks@) == build_blocks_v(tree_after(events@)[0].children),
    {
        let root = RawNode::from_events(events);
        let blocks = build_blocks(root.children.as_slice());
        MarkdownDocument { blocks }
    }
}

/// The marker shown before item `index` of a list starting at `start`: a
/// checked or unchecked box for a task item, the item's number (counted
/// from `start`, stopping at the largest number) and a full stop in an
/// ordered list, a bullet otherwise; each followed by a space.
pub open spec fn list_marker_spec(ordered: bool, start: u64, index: u64, checked: Option<bool>) -> Seq<char> {
    match checked {
        Some(c) => (if c { "☑"@ } else { "☐"@ }) + " "@,
        None => if ordered {
            crate::text::decimal(if start + index > u64::MAX { u64::MAX as nat } else { (start + index) as nat })
                + ". "@
        } else {
            "• "@
        },
    }
}

/// The marker shown before item `index` of a list, as
/// [`list_marker_spec`] says.
pub fn list_marker(ordered: bool, start: u64, index: u64, checked: Option<bool>) -> (r: String)
    ensures
        r@ == list_marker_spec(ordered, start, index, checked),
{
    match checked {
        Some(c) => {
            let mut m = if c { String::from_str("☑") } else { String::from_str("☐") };
            m.append(" ");
            m
        },
        None => if ordered {
            let n = start.saturating_add(index);
            let mut m = crate::text::decimal_string_u64(n);
            m.append(". ");
            m
        } else {
            String::from_str("• ")
        },
    }
}

/// The body rows of a table are the cell rows of its row children, in
/// document order: the `k`-th row is made of the `k`-th `TableRow` child.
pub proof fn law_table_rows_in_document_order(s: Seq<RawTree>)
    ensures
        table_rows_v(s) == s.filter(|n: RawTree| n.kind is TableRow).map_values(
            |n: RawTree| table_row_v(n.children),
        ),
    decreases s.len(),
{
    reveal(Seq::filter);
    if s.len() > 0 {
        let d = s.drop_last();
        law_table_rows_in_document_order(d);
        assert(s.subrange(0, s.len() - 1) =~= d);
        let fd = d.filter(|n: RawTree| n.kind is TableRow);
        if s.last().kind is TableRow {
            assert(s.filter(|n: RawTree| n.kind is TableRow) == fd.push(s.last()));
            assert(fd.push(s.last()).map_values(|n: RawTree| table_row_v(n.children)) =~= fd.map_values(
                |n: RawTree| table_row_v(n.children),
            ) + seq![table_row_v(s.last().children)]);
        } else {
            assert(s.filter(|n: RawTree| n.kind is TableRow) == fd);
            assert(table_rows_v(s) =~= table_rows_v(d));
        }
    }
}

/// The cells of a table row are the inline contents of its cell children,
/// in document order.
pub proof fn law_table_cells_in_document_order(s: Seq<RawTree>)
    ensures
        table_row_v(s) == s.filter(|n: RawTree| n.kind is TableCell).map_values(
            |n: RawTree| build_inlines_v(n.children),
        ),
    decreases s.len(),
{
    reveal(Seq::filter);
    if s.len() > 0 {
        let d = s.drop_last();
        law_table_cells_in_document_order(d);
        assert(s.subrange(0, s.len() - 1) =~= d);
        let fd = d.filter(|n: RawTree| n.kind is TableCell);
        if s.last().kind is TableCell {
            assert(s.filter(|n: RawTree| n.kind is TableCell) == fd.push(s.last()));
            assert(fd.push(s.last()).map_values(|n: RawTree| build_inlines_v(n.children)) =~= fd.map_values(
                |n: RawTree| build_inlines_v(n.children),
            ) + seq![build_inlines_v(s.last().children)]);
        } else {
            assert(s.filter(|n: RawTree| n.kind is TableCell) == fd);
            assert(table_row_v(s) =~= table_row_v(d));
        }
    }
}

} // verus!
