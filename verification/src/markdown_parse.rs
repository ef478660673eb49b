//! Parsing Markdown text with pulldown-cmark into the document model.
//!
//! The parser's events are turned into library events one variant at a time
//! by small trusted conversions; building the document from those events is
//! verified in [`crate::markdown`].

use vstd::prelude::*;
use pulldown_cmark::{Alignment, CodeBlockKind, Event, Options, Parser, Tag};
use crate::markdown::{
    blocks_v, build_blocks_v, tree_after, MarkdownDocument, MarkdownTableAlignment, MdEvent, MdTag,
};

verus! {

#[verifier::external_type_specification]
#[verifier::external_body]
pub struct ExEvent<'a>(Event<'a>);

#[verifier::external_type_specification]
#[verifier::external_body]
pub struct ExAlignment(Alignment);

/// Which event of the parser an event is; a task marker carries its state.
#[derive(Debug)]
pub enum EventKind {
    Start,
    End,
    Text,
    Code,
    InlineMath,
    DisplayMath,
    Html,
    InlineHtml,
    FootnoteReference,
    SoftBreak,
    HardBreak,
    Rule,
    TaskListMarker(bool),
}

/// The events that pulldown-cmark reports for `text` (strikethrough, tables
/// and task lists enabled), each as the library value that [`convert_event`]
/// makes of it. The parser's events depend on the text alone.
pub uninterp spec fn markdown_event_seq(text: Seq<char>) -> Seq<MdEvent>;

/// Runs `pulldown_cmark::Parser::new_ext` on `text` with strikethrough,
/// tables and task lists enabled, and converts each event it reports with
/// the verified [`convert_event`]. Claimed: the result is named by
/// [`markdown_event_seq`], and each event is one that `convert_event` can
/// give (its own contract).
#[verifier::external_body]
fn parse_events(text: &str) -> (r: Vec<MdEvent>)
    ensures
        r@ == markdown_event_seq(text@),
        forall|i: int| 0 <= i < r@.len() ==> reportable_event(#[trigger] r@[i]),
{
    let options = Options::ENABLE_STRIKETHROUGH | Options::ENABLE_TABLES | Options::ENABLE_TASKLISTS;
    Parser::new_ext(text, options).map(|e| convert_event(&e.into_static())).collect()
}

/// Tells the variants of a `pulldown_cmark::Event` apart. Nothing is claimed
/// of the result.
#[verifier::external_body]
fn event_kind(e: &Event<'static>) -> (r: EventKind) {
    match e {
        Event::Start(_) => EventKind::Start,
        Event::End(_) => EventKind::End,
        Event::Text(_) => EventKind::Text,
        Event::Code(_) => EventKind::Code,
        Event::InlineMath(_) => EventKind::InlineMath,
        Event::DisplayMath(_) => EventKind::DisplayMath,
        Event::Html(_) => EventKind::Html,
        Event::InlineHtml(_) => EventKind::InlineHtml,
        Event::FootnoteReference(_) => EventKind::FootnoteReference,
        Event::SoftBreak => EventKind::SoftBreak,
        Event::HardBreak => EventKind::HardBreak,
        Event::Rule => EventKind::Rule,
        Event::TaskListMarker(b) => EventKind::TaskListMarker(*b),
    }
}

/// The text that a text-carrying `pulldown_cmark::Event` holds (its `CowStr`
/// as a `String`), empty for the other events. Nothing is claimed of it.
#[verifier::external_body]
fn event_text(e: &Event<'static>) -> (r: String) {
    match e {
        Event::Text(s) | Event::Code(s) | Event::InlineMath(s) | Event::DisplayMath(s)
        | Event::Html(s) | Event::InlineHtml(s) | Event::FootnoteReference(s) => s.to_string(),
        _ => String::new(),
    }
}

/// The block tags of a start event of `pulldown_cmark` (paragraph, heading
/// with its `HeadingLevel` as a number, block quote, list with its start, item).
/// Claimed: a tag it reports is one of these, and a heading's level is 1 to 6
/// (`HeadingLevel` numbers its variants `H1 = 1` to `H6`). Which event gives
/// which tag is not claimed.
#[verifier::external_body]
fn block_tag(e: &Event<'static>) -> (r: Option<MdTag>)
    ensures
        r matches Some(t) ==> is_block_tag(t),
{
    match e {
        Event::Start(Tag::Paragraph) => Some(MdTag::Paragraph),
        Event::Start(Tag::Heading { level, .. }) => Some(MdTag::Heading(*level as u8)),
        Event::Start(Tag::BlockQuote(_)) => Some(MdTag::BlockQuote),
        Event::Start(Tag::List(n)) => Some(MdTag::List(*n)),
        Event::Start(Tag::Item) => Some(MdTag::Item),
        _ => None,
    }
}

/// The table-part and emphasis tags of a start event of `pulldown_cmark`.
/// Claimed: a tag it reports is one of these. Which event gives which tag
/// is not claimed.
#[verifier::external_body]
fn span_tag(e: &Event<'static>) -> (r: Option<MdTag>)
    ensures
        r matches Some(t) ==> is_span_tag(t),
{
    match e {
        Event::Start(Tag::TableHead) => Some(MdTag::TableHead),
        Event::Start(Tag::TableRow) => Some(MdTag::TableRow),
        Event::Start(Tag::TableCell) => Some(MdTag::TableCell),
        Event::Start(Tag::Emphasis) => Some(MdTag::Emphasis),
        Event::Start(Tag::Strong) => Some(MdTag::Strong),
        Event::Start(Tag::Strikethrough) => Some(MdTag::Strikethrough),
        _ => None,
    }
}

/// For a start of a `pulldown_cmark` code block: `Some` of its fenced info
/// string, or `Some(None)` when indented. Nothing is claimed of the result.
#[verifier::external_body]
fn code_block_info(e: &Event<'static>) -> (r: Option<Option<String>>) {
    match e {
        Event::Start(Tag::CodeBlock(CodeBlockKind::Fenced(l))) => Some(Some(l.to_string())),
        Event::Start(Tag::CodeBlock(CodeBlockKind::Indented)) => Some(None),
        _ => None,
    }
}

/// For a start of a `pulldown_cmark` link or image: whether it is an image,
/// its destination and its title. Nothing is claimed of the result.
#[verifier::external_body]
fn link_parts(e: &Event<'static>) -> (r: Option<(bool, String, String)>) {
    match e {
        Event::Start(Tag::Link { dest_url, title, .. }) => Some((false, dest_url.to_string(), title.to_string())),
        Event::Start(Tag::Image { dest_url, title, .. }) => Some((true, dest_url.to_string(), title.to_string())),
        _ => None,
    }
}

/// For a start of a `pulldown_cmark` table: its column alignments.
/// Nothing is claimed of the result.
#[verifier::external_body]
fn table_alignments(e: &Event<'static>) -> (r: Option<Vec<Alignment>>) {
    match e {
        Event::Start(Tag::Table(a)) => Some(a.clone()),
        _ => None,
    }
}

/// Tells the variants of `pulldown_cmark::Alignment` apart. Nothing is
/// claimed of the result.
#[verifier::external_body]
fn alignment_kind(a: &Alignment) -> (r: MarkdownTableAlignment) {
    match a {
        Alignment::None => MarkdownTableAlignment::Unspecified,
        Alignment::Left => MarkdownTableAlignment::Left,
        Alignment::Center => MarkdownTableAlignment::Center,
        Alignment::Right => MarkdownTableAlignment::Right,
    }
}

/// The tags that [`block_tag`] reports: paragraph, heading of level 1 to 6,
/// block quote, list and item.
pub open spec fn is_block_tag(t: MdTag) -> bool {
    ||| t is Paragraph
    ||| (t matches MdTag::Heading(l) && 1 <= l <= 6)
    ||| t is BlockQuote
    ||| t is List
    ||| t is Item
}

/// The tags that [`span_tag`] reports: the table parts and the emphasis tags.
pub open spec fn is_span_tag(t: MdTag) -> bool {
    ||| t is TableHead
    ||| t is TableRow
    ||| t is TableCell
    ||| t is Emphasis
    ||| t is Strong
    ||| t is Strikethrough
}

/// The tag made of what the parts of a start event give: the first part
/// present, in the order block tag, span tag, code block, link or image,
/// table; `Other` when none is.
pub open spec fn tag_of(
    block: Option<MdTag>,
    span: Option<MdTag>,
    code: Option<Option<String>>,
    link: Option<(bool, String, String)>,
    aligns: Option<Vec<MarkdownTableAlignment>>,
) -> MdTag {
    match block {
        Some(t) => t,
        None => match span {
            Some(t) => t,
            None => match code {
                Some(Some(l)) => MdTag::FencedCode(l),
                Some(None) => MdTag::IndentedCode,
                None => match link {
                    Some((is_image, destination, title)) => if is_image {
                        MdTag::Image { destination, title }
                    } else {
                        MdTag::Link { destination, title }
                    },
                    None => match aligns {
                        Some(a) => MdTag::Table(a),
                        None => MdTag::Other,
                    },
                },
            },
        },
    }
}

/// Whether `t` is a tag that the parts of some start event give, each part
/// being one that its conversion can report.
pub open spec fn reportable_tag(t: MdTag) -> bool {
    exists|
        b: Option<MdTag>,
        s: Option<MdTag>,
        c: Option<Option<String>>,
        l: Option<(bool, String, String)>,
        a: Option<Vec<MarkdownTableAlignment>>,
    |
        (b matches Some(x) ==> is_block_tag(x)) && (s matches Some(y) ==> is_span_tag(y)) && t
            == #[trigger] tag_of(b, s, c, l, a)
}

/// The event made of an event's kind, its text and the tag it opens.
pub open spec fn event_of(kind: EventKind, text: String, tag: MdTag) -> MdEvent {
    match kind {
        EventKind::Start => MdEvent::Start(tag),
        EventKind::End => MdEvent::End,
        EventKind::Text => MdEvent::Text(text),
        EventKind::Code => MdEvent::Code(text),
        EventKind::InlineMath => MdEvent::InlineMath(text),
        EventKind::DisplayMath => MdEvent::DisplayMath(text),
        EventKind::Html => MdEvent::Html(text),
        EventKind::InlineHtml => MdEvent::InlineHtml(text),
        EventKind::FootnoteReference => MdEvent::FootnoteReference(text),
        EventKind::SoftBreak => MdEvent::SoftBreak,
        EventKind::HardBreak => MdEvent::HardBreak,
        EventKind::Rule => MdEvent::Rule,
        EventKind::TaskListMarker(b) => MdEvent::TaskListMarker(b),
    }
}

/// Whether `e` is the event made of some kind, some text and a reportable tag.
pub open spec fn reportable_event(e: MdEvent) -> bool {
    exists|k: EventKind, t: String, g: MdTag| reportable_tag(g) && e == #[trigger] event_of(k, t, g)
}

/// The tag made of the parts of a start event, as [`tag_of`] says.
pub fn tag_from_parts(
    block: Option<MdTag>,
    span: Option<MdTag>,
    code: Option<Option<String>>,
    link: Option<(bool, String, String)>,
    aligns: Option<Vec<MarkdownTableAlignment>>,
) -> (r: MdTag)
    ensures
        r == tag_of(block, span, code, link, aligns),
{
    if let Some(t) = block {
        return t;
    }
    if let Some(t) = span {
        return t;
    }
    if let Some(info) = code {
        return match info {
            Some(l) => MdTag::FencedCode(l),
            None => MdTag::IndentedCode,
        };
    }
    if let Some((is_image, destination, title)) = link {
        return if is_image {
            MdTag::Image { destination, title }
        } else {
            MdTag::Link { destination, title }
        };
    }
    match aligns {
        Some(a) => MdTag::Table(a),
        None => MdTag::Other,
    }
}

/// The event made of a kind, a text and a tag, as [`event_of`] says.
pub fn event_from_parts(kind: EventKind, text: String, tag: MdTag) -> (r: MdEvent)
    ensures
        r == event_of(kind, text, tag),
{
    match kind {
        EventKind::Start => MdEvent::Start(tag),
        EventKind::End => MdEvent::End,
        EventKind::Text => MdEvent::Text(text),
        EventKind::Code => MdEvent::Code(text),
        EventKind::InlineMath => MdEvent::InlineMath(text),
        EventKind::DisplayMath => MdEvent::DisplayMath(text),
        EventKind::Html => MdEvent::Html(text),
        EventKind::InlineHtml => MdEvent::InlineHtml(text),
        EventKind::FootnoteReference => MdEvent::FootnoteReference(text),
        EventKind::SoftBreak => MdEvent::SoftBreak,
        EventKind::HardBreak => MdEvent::HardBreak,
        EventKind::Rule => MdEvent::Rule,
        EventKind::TaskListMarker(b) => MdEvent::TaskListMarker(b),
    }
}

/// The tag that a start event opens, as a library value: what [`tag_of`]
/// makes of the parts that the parser's event gives.
fn convert_tag(e: &Event<'static>) -> (r: MdTag)
    ensures
        reportable_tag(r),
{
    let block = block_tag(e);
    let span = span_tag(e);
    let code = code_block_info(e);
    let link = link_parts(e);
    let aligns = match table_alignments(e) {
        Some(a) => {
            let mut alignments: Vec<MarkdownTableAlignment> = Vec::new();
            let mut i: usize = 0;
            while i < a.len()
                invariant
                    i <= a.len(),
                decreases a.len() - i,
            {
                alignments.push(alignment_kind(&a[i]));
                i += 1;
            }
            Some(alignments)
        },
        None => None,
    };
    let r = tag_from_parts(block, span, code, link, aligns);
    r
}

/// A parser event as a library value: what [`event_of`] makes of its kind,
/// its text and the tag it opens.
fn convert_event(e: &Event<'static>) -> (r: MdEvent)
    ensures
        reportable_event(r),
{
    let kind = event_kind(e);
    let text = event_text(e);
    let tag = convert_tag(e);
    event_from_parts(kind, text, tag)
}

/// The events that pulldown-cmark reports for `text`, as library values.
fn markdown_events(text: &str) -> (r: Vec<MdEvent>)
    ensures
        r@ == markdown_event_seq(text@),
        forall|i: int| 0 <= i < r@.len() ==> reportable_event(#[trigger] r@[i]),
{
    parse_events(text)
}

impl MarkdownDocument {
    /// Parses Markdown text (with strikethrough, tables and task lists) into
    /// the document that the parser's events describe.
    pub fn parse(markdown: &str) -> (r: Self)
        ensures
            blocks_v(r.blocks@) == build_blocks_v(tree_after(markdown_event_seq(markdown@))[0].children),
    {
        let events = markdown_events(markdown);
        let r = MarkdownDocument::from_events(&events);
        assert(blocks_v(r.blocks@) == build_blocks_v(tree_after(events@)[0].children));
        r
    }
}

} // verus!
