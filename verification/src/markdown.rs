//! Markdown, reduced to the few blocks and styles Flodo draws.
//!
//! `pulldown-cmark` tokenises the text; this module folds its event stream
//! into a flat list of blocks, each holding runs of uniformly styled text.

use vstd::prelude::*;

use crate::text::{chars_of, same_str, slice_of, string_of};

use pulldown_cmark::{CodeBlockKind, Event, Tag, TagEnd};

verus! {

pub const FAMILY_UI: &'static str = "ui";
pub const FAMILY_BOLD: &'static str = "ui-bold";
pub const FAMILY_ITALIC: &'static str = "ui-italic";
pub const FAMILY_BOLD_ITALIC: &'static str = "ui-bold-italic";
pub const FAMILY_MONO: &'static str = "mono";

// ---------------------------------------------------------------- blocks

/// Styling of one contiguous run of text.
#[derive(Debug, Clone, Default, PartialEq)]
pub struct Style {
    pub strong: bool,
    pub emph: bool,
    pub code: bool,
    pub strike: bool,
    pub link: Option<String>,
}

#[derive(Debug, Clone, PartialEq)]
pub struct Span {
    pub text: String,
    pub style: Style,
}

#[derive(Debug, Clone, PartialEq)]
pub enum Block {
    Paragraph(Vec<Span>),
    Heading { level: u8, spans: Vec<Span> },
    Item { depth: u8, marker: Option<u64>, spans: Vec<Span> },
    Code { lang: String, text: String },
    Quote(Vec<Span>),
    Rule,
}

pub struct StyleView {
    pub strong: bool,
    pub emph: bool,
    pub code: bool,
    pub strike: bool,
    pub link: Option<Seq<char>>,
}

pub struct SpanView {
    pub text: Seq<char>,
    pub style: StyleView,
}

pub enum BlockView {
    Paragraph(Seq<SpanView>),
    Heading { level: u8, spans: Seq<SpanView> },
    Item { depth: u8, marker: Option<u64>, spans: Seq<SpanView> },
    Code { lang: Seq<char>, text: Seq<char> },
    Quote(Seq<SpanView>),
    Rule,
}

pub open spec fn opt_str(o: Option<String>) -> Option<Seq<char>> {
    match o {
        Some(s) => Some(s@),
        None => None,
    }
}

impl View for Style {
    type V = StyleView;

    open spec fn view(&self) -> StyleView {
        StyleView {
            strong: self.strong,
            emph: self.emph,
            code: self.code,
            strike: self.strike,
            link: opt_str(self.link),
        }
    }
}

impl View for Span {
    type V = SpanView;

    open spec fn view(&self) -> SpanView {
        SpanView { text: self.text@, style: self.style@ }
    }
}

pub open spec fn spans_view(v: Seq<Span>) -> Seq<SpanView> {
    v.map_values(|s: Span| s@)
}

impl View for Block {
    type V = BlockView;

    open spec fn view(&self) -> BlockView {
        match self {
            Block::Paragraph(s) => BlockView::Paragraph(spans_view(s@)),
            Block::Heading { level, spans } => BlockView::Heading {
                level: *level,
                spans: spans_view(spans@),
            },
            Block::Item { depth, marker, spans } => BlockView::Item {
                depth: *depth,
                marker: *marker,
                spans: spans_view(spans@),
            },
            Block::Code { lang, text } => BlockView::Code { lang: lang@, text: text@ },
            Block::Quote(s) => BlockView::Quote(spans_view(s@)),
            Block::Rule => BlockView::Rule,
        }
    }
}

pub open spec fn blocks_view(v: Seq<Block>) -> Seq<BlockView> {
    v.map_values(|b: Block| b@)
}

// ---------------------------------------------------------------- events

/// One step of the tokeniser's output, reduced to what the fold reads.
#[derive(Debug, Clone, PartialEq)]
pub enum MdEvent {
    StartParagraph,
    EndParagraph,
    /// A heading opens, with its level, 1 to 6.
    StartHeading(u8),
    EndHeading,
    StartQuote,
    EndQuote,
    /// A list opens: `Some(first number)` for an ordered list.
    StartList(Option<u64>),
    EndList,
    StartItem,
    EndItem,
    /// A fenced code block opens, with its info string.
    StartFencedCode(String),
    StartIndentedCode,
    EndCode,
    StartStrong,
    EndStrong,
    StartEmph,
    EndEmph,
    StartStrike,
    EndStrike,
    /// A link opens, with its destination.
    StartLink(String),
    EndLink,
    Text(String),
    Code(String),
    SoftBreak,
    HardBreak,
    Rule,
    /// Raw HTML, block or inline.
    Html(String),
    /// Anything the fold ignores.
    Other,
}

pub enum MdEventView {
    StartParagraph,
    EndParagraph,
    StartHeading(u8),
    EndHeading,
    StartQuote,
    EndQuote,
    StartList(Option<u64>),
    EndList,
    StartItem,
    EndItem,
    StartFencedCode(Seq<char>),
    StartIndentedCode,
    EndCode,
    StartStrong,
    EndStrong,
    StartEmph,
    EndEmph,
    StartStrike,
    EndStrike,
    StartLink(Seq<char>),
    EndLink,
    Text(Seq<char>),
    Code(Seq<char>),
    SoftBreak,
    HardBreak,
    Rule,
    Html(Seq<char>),
    Other,
}

impl View for MdEvent {
    type V = MdEventView;

    open spec fn view(&self) -> MdEventView {
        match self {
            MdEvent::StartParagraph => MdEventView::StartParagraph,
            MdEvent::EndParagraph => MdEventView::EndParagraph,
            MdEvent::StartHeading(l) => MdEventView::StartHeading(*l),
            MdEvent::EndHeading => MdEventView::EndHeading,
            MdEvent::StartQuote => MdEventView::StartQuote,
            MdEvent::EndQuote => MdEventView::EndQuote,
            MdEvent::StartList(s) => MdEventView::StartList(*s),
            MdEvent::EndList => MdEventView::EndList,
            MdEvent::StartItem => MdEventView::StartItem,
            MdEvent::EndItem => MdEventView::EndItem,
            MdEvent::StartFencedCode(l) => MdEventView::StartFencedCode(l@),
            MdEvent::StartIndentedCode => MdEventView::StartIndentedCode,
            MdEvent::EndCode => MdEventView::EndCode,
            MdEvent::StartStrong => MdEventView::StartStrong,
            MdEvent::EndStrong => MdEventView::EndStrong,
            MdEvent::StartEmph => MdEventView::StartEmph,
            MdEvent::EndEmph => MdEventView::EndEmph,
            MdEvent::StartStrike => MdEventView::StartStrike,
            MdEvent::EndStrike => MdEventView::EndStrike,
            MdEvent::StartLink(u) => MdEventView::StartLink(u@),
            MdEvent::EndLink => MdEventView::EndLink,
            MdEvent::Text(t) => MdEventView::Text(t@),
            MdEvent::Code(t) => MdEventView::Code(t@),
            MdEvent::SoftBreak => MdEventView::SoftBreak,
            MdEvent::HardBreak => MdEventView::HardBreak,
            MdEvent::Rule => MdEventView::Rule,
            MdEvent::Html(t) => MdEventView::Html(t@),
            MdEvent::Other => MdEventView::Other,
        }
    }
}

pub open spec fn events_view(v: Seq<MdEvent>) -> Seq<MdEventView> {
    v.map_values(|e: MdEvent| e@)
}

// ------------------------------------------------------------ the tokeniser

#[verifier::external_type_specification]
#[verifier::external_body]
pub struct ExCmarkEvent<'a>(pulldown_cmark::Event<'a>);

#[verifier::external_type_specification]
#[verifier::external_body]
pub struct ExCmarkTag<'a>(pulldown_cmark::Tag<'a>);

#[verifier::external_type_specification]
#[verifier::external_body]
pub struct ExCmarkTagEnd(pulldown_cmark::TagEnd);

/// The events `pulldown_cmark::Parser` yields for a text, with
/// strikethrough enabled and no other extension.
pub uninterp spec fn cmark_events(src: Seq<char>) -> Seq<MdEventView>;

/// Runs `pulldown_cmark::Parser::new_ext` with `Options::ENABLE_STRIKETHROUGH`
/// (task lists stay off) and converts each event it yields.
#[verifier::external_body]
fn tokenize(src: &str) -> (r: Vec<MdEvent>)
    ensures
        events_view(r@) == cmark_events(src@),
{
    let mut out = Vec::new();
    for event in pulldown_cmark::Parser::new_ext(src, pulldown_cmark::Options::ENABLE_STRIKETHROUGH) {
        out.push(convert_event(event));
    }
    out
}

/// Converts one `pulldown_cmark::Event`, variant for variant.
#[verifier::external_body]
fn convert_event(e: pulldown_cmark::Event) -> MdEvent {
    match e {
        Event::Start(tag) => convert_start(tag),
        Event::End(tag) => convert_end(tag),
        Event::Text(t) => MdEvent::Text(t.to_string()),
        Event::Code(t) => MdEvent::Code(t.to_string()),
        Event::Html(t) | Event::InlineHtml(t) => MdEvent::Html(t.to_string()),
        Event::SoftBreak => MdEvent::SoftBreak,
        Event::HardBreak => MdEvent::HardBreak,
        Event::Rule => MdEvent::Rule,
        _ => MdEvent::Other,
    }
}

/// Converts one `pulldown_cmark::Tag` that opens, variant for variant.
#[verifier::external_body]
fn convert_start(tag: pulldown_cmark::Tag) -> MdEvent {
    match tag {
        Tag::Paragraph => MdEvent::StartParagraph,
        Tag::Heading { level, .. } => MdEvent::StartHeading(level as u8),
        Tag::BlockQuote(_) => MdEvent::StartQuote,
        Tag::List(start) => MdEvent::StartList(start),
        Tag::Item => MdEvent::StartItem,
        Tag::CodeBlock(CodeBlockKind::Fenced(l)) => MdEvent::StartFencedCode(l.to_string()),
        Tag::CodeBlock(CodeBlockKind::Indented) => MdEvent::StartIndentedCode,
        Tag::Strong => MdEvent::StartStrong,
        Tag::Emphasis => MdEvent::StartEmph,
        Tag::Strikethrough => MdEvent::StartStrike,
        Tag::Link { dest_url, .. } => MdEvent::StartLink(dest_url.to_string()),
        _ => MdEvent::Other,
    }
}

/// Converts one `pulldown_cmark::TagEnd`, variant for variant.
#[verifier::external_body]
fn convert_end(tag: pulldown_cmark::TagEnd) -> MdEvent {
    match tag {
        TagEnd::Paragraph => MdEvent::EndParagraph,
        TagEnd::Heading(_) => MdEvent::EndHeading,
        TagEnd::BlockQuote(_) => MdEvent::EndQuote,
        TagEnd::List(_) => MdEvent::EndList,
        TagEnd::Item => MdEvent::EndItem,
        TagEnd::CodeBlock => MdEvent::EndCode,
        TagEnd::Strong => MdEvent::EndStrong,
        TagEnd::Emphasis => MdEvent::EndEmph,
        TagEnd::Strikethrough => MdEvent::EndStrike,
        TagEnd::Link => MdEvent::EndLink,
        _ => MdEvent::Other,
    }
}

// ------------------------------------------------------------ the fold

/// One open list item, so a nested list can't clobber its parent's text.
#[derive(Clone, Copy)]
pub struct ItemFrame {
    pub depth: u8,
    pub marker: Option<u64>,
    /// The item's text has already been emitted as a block.
    pub flushed: bool,
}

/// Everything the fold tracks between events.
#[verifier::ext_equal]
pub struct FoldState {
    pub blocks: Seq<BlockView>,
    pub spans: Seq<SpanView>,
    pub style: StyleView,
    pub lists: Seq<Option<u64>>,
    pub items: Seq<ItemFrame>,
    pub heading: Option<u8>,
    pub in_quote: bool,
    pub code: Option<(Seq<char>, Seq<char>)>,
}

pub open spec fn plain() -> StyleView {
    StyleView { strong: false, emph: false, code: false, strike: false, link: None }
}

pub open spec fn start_state() -> FoldState {
    FoldState {
        blocks: Seq::empty(),
        spans: Seq::empty(),
        style: plain(),
        lists: Seq::empty(),
        items: Seq::empty(),
        heading: None,
        in_quote: false,
        code: None,
    }
}

/// Appends a run of text, merging it into the previous run when the styling
/// is identical so a paragraph doesn't become many one-word runs. Empty text
/// adds nothing.
pub open spec fn push_span(spans: Seq<SpanView>, text: Seq<char>, style: StyleView) -> Seq<
    SpanView,
> {
    if text.len() == 0 {
        spans
    } else if spans.len() > 0 && spans.last().style == style {
        spans.update(spans.len() - 1, SpanView { text: spans.last().text + text, style })
    } else {
        spans.push(SpanView { text, style })
    }
}

/// The text of a code block without its trailing newlines.
pub open spec fn strip_newlines(t: Seq<char>) -> Seq<char>
    decreases t.len(),
{
    if t.len() > 0 && t.last() == '\n' {
        strip_newlines(t.drop_last())
    } else {
        t
    }
}

/// The state with the pending runs emitted as the innermost item's text.
pub open spec fn flush_item(s: FoldState) -> FoldState {
    let f = s.items.last();
    FoldState {
        items: s.items.update(s.items.len() - 1, ItemFrame { flushed: true, ..f }),
        blocks: s.blocks.push(BlockView::Item { depth: f.depth, marker: f.marker, spans: s.spans }),
        spans: Seq::empty(),
        ..s
    }
}

/// The next ordinal of an ordered list.
pub open spec fn next_ordinal(n: u64) -> u64 {
    if n == u64::MAX {
        0
    } else {
        (n + 1) as u64
    }
}

/// One event applied to the fold.
pub open spec fn fold_step(s: FoldState, e: MdEventView) -> FoldState {
    match e {
        MdEventView::StartParagraph => FoldState { spans: Seq::empty(), ..s },
        MdEventView::EndParagraph => if s.spans.len() == 0 {
            s
        } else if s.items.len() > 0 {
            // A paragraph inside a list item *is* the item's text (loose
            // lists wrap item text in a paragraph).
            flush_item(s)
        } else if s.in_quote {
            FoldState { blocks: s.blocks.push(BlockView::Quote(s.spans)), spans: Seq::empty(), ..s }
        } else {
            FoldState {
                blocks: s.blocks.push(BlockView::Paragraph(s.spans)),
                spans: Seq::empty(),
                ..s
            }
        },
        MdEventView::StartHeading(level) => FoldState {
            spans: Seq::empty(),
            heading: Some(
                if level == 1 {
                    1u8
                } else if level == 2 {
                    2u8
                } else {
                    3u8
                },
            ),
            ..s
        },
        MdEventView::EndHeading => match s.heading {
            Some(level) => FoldState {
                blocks: s.blocks.push(BlockView::Heading { level, spans: s.spans }),
                spans: Seq::empty(),
                heading: None,
                ..s
            },
            None => s,
        },
        MdEventView::StartQuote => FoldState { in_quote: true, ..s },
        MdEventView::EndQuote => FoldState { in_quote: false, ..s },
        MdEventView::StartList(start) => {
            // A nested list interrupts its parent item, so the parent's text
            // so far is emitted first.
            let s1 = if s.items.len() > 0 && s.spans.len() > 0 {
                flush_item(s)
            } else {
                s
            };
            FoldState { lists: s1.lists.push(start), ..s1 }
        },
        MdEventView::EndList => if s.lists.len() > 0 {
            FoldState { lists: s.lists.drop_last(), ..s }
        } else {
            s
        },
        MdEventView::StartItem => FoldState {
            spans: Seq::empty(),
            items: s.items.push(
                ItemFrame {
                    depth: if s.lists.len() > 0 {
                        (s.lists.len() - 1) as u8
                    } else {
                        0u8
                    },
                    marker: if s.lists.len() > 0 {
                        s.lists.last()
                    } else {
                        None
                    },
                    flushed: false,
                },
            ),
            ..s
        },
        MdEventView::EndItem => {
            let s1 = if s.items.len() > 0 {
                let f = s.items.last();
                if !f.flushed || s.spans.len() > 0 {
                    FoldState {
                        items: s.items.drop_last(),
                        blocks: s.blocks.push(
                            BlockView::Item { depth: f.depth, marker: f.marker, spans: s.spans },
                        ),
                        spans: Seq::empty(),
                        ..s
                    }
                } else {
                    FoldState { items: s.items.drop_last(), ..s }
                }
            } else {
                s
            };
            if s1.lists.len() > 0 && s1.lists.last() is Some {
                FoldState {
                    lists: s1.lists.update(
                        s1.lists.len() - 1,
                        Some(next_ordinal(s1.lists.last()->0)),
                    ),
                    ..s1
                }
            } else {
                s1
            }
        },
        MdEventView::StartFencedCode(lang) => FoldState { code: Some((lang, Seq::empty())), ..s },
        MdEventView::StartIndentedCode => FoldState {
            code: Some((Seq::empty(), Seq::empty())),
            ..s
        },
        MdEventView::EndCode => match s.code {
            Some((lang, text)) => FoldState {
                blocks: s.blocks.push(BlockView::Code { lang, text: strip_newlines(text) }),
                code: None,
                ..s
            },
            None => s,
        },
        MdEventView::StartStrong => FoldState { style: StyleView { strong: true, ..s.style }, ..s },
        MdEventView::EndStrong => FoldState { style: StyleView { strong: false, ..s.style }, ..s },
        MdEventView::StartEmph => FoldState { style: StyleView { emph: true, ..s.style }, ..s },
        MdEventView::EndEmph => FoldState { style: StyleView { emph: false, ..s.style }, ..s },
        MdEventView::StartStrike => FoldState { style: StyleView { strike: true, ..s.style }, ..s },
        MdEventView::EndStrike => FoldState { style: StyleView { strike: false, ..s.style }, ..s },
        MdEventView::StartLink(url) => FoldState {
            style: StyleView { link: Some(url), ..s.style },
            ..s
        },
        MdEventView::EndLink => FoldState { style: StyleView { link: None, ..s.style }, ..s },
        MdEventView::Text(t) => match s.code {
            Some((lang, buf)) => FoldState { code: Some((lang, buf + t)), ..s },
            None => FoldState { spans: push_span(s.spans, t, s.style), ..s },
        },
        MdEventView::Code(t) => FoldState {
            spans: push_span(s.spans, t, StyleView { code: true, ..s.style }),
            ..s
        },
        MdEventView::SoftBreak => FoldState { spans: push_span(s.spans, seq![' '], s.style), ..s },
        MdEventView::HardBreak => FoldState {
            spans: push_span(s.spans, seq!['\n'], s.style),
            ..s
        },
        MdEventView::Rule => FoldState { blocks: s.blocks.push(BlockView::Rule), ..s },
        // Raw HTML renders as plain text rather than silently disappearing.
        MdEventView::Html(t) => FoldState { spans: push_span(s.spans, t, s.style), ..s },
        _ => s,
    }
}

/// The fold after every event.
pub open spec fn fold_all(events: Seq<MdEventView>) -> FoldState
    decreases events.len(),
{
    if events.len() == 0 {
        start_state()
    } else {
        fold_step(fold_all(events.drop_last()), events.last())
    }
}

/// The blocks at the end: an unclosed code fence or paragraph still yields
/// its content rather than being dropped.
pub open spec fn finish(s: FoldState) -> Seq<BlockView> {
    let b = match s.code {
        Some((lang, text)) => s.blocks.push(BlockView::Code { lang, text: strip_newlines(text) }),
        None => s.blocks,
    };
    if s.spans.len() > 0 {
        b.push(BlockView::Paragraph(s.spans))
    } else {
        b
    }
}

/// The blocks an event stream folds into.
pub open spec fn blocks_spec(events: Seq<MdEventView>) -> Seq<BlockView> {
    finish(fold_all(events))
}

// ------------------------------------------------------------ fold, in code

fn style_eq(a: &Style, b: &Style) -> (r: bool)
    ensures
        r == (a@ == b@),
{
    if a.strong != b.strong || a.emph != b.emph || a.code != b.code || a.strike != b.strike {
        return false;
    }
    match (&a.link, &b.link) {
        (Some(x), Some(y)) => same_str(x.as_str(), y.as_str()),
        (None, None) => true,
        _ => false,
    }
}

fn copy_style(s: &Style) -> (r: Style)
    ensures
        r@ == s@,
{
    Style {
        strong: s.strong,
        emph: s.emph,
        code: s.code,
        strike: s.strike,
        link: match &s.link {
            Some(l) => Some(l.clone()),
            None => None,
        },
    }
}

/// Appends a run of text, merging it into an identically styled last run.
fn push_run(spans: &mut Vec<Span>, text: &str, style: &Style)
    ensures
        spans_view(final(spans)@) == push_span(spans_view(old(spans)@), text@, style@),
{
    let ghost old_v = spans_view(spans@);
    if chars_of(text).len() == 0 {
        return;
    }
    let n = spans.len();
    if n > 0 && style_eq(&spans[n - 1].style, style) {
        let mut last = spans.pop().unwrap();
        last.text.append(text);
        spans.push(last);
        proof {
            assert(spans_view(spans@) =~= push_span(old_v, text@, style@));
        }
    } else {
        spans.push(Span { text: text.to_owned(), style: copy_style(style) });
        proof {
            assert(spans_view(spans@) =~= push_span(old_v, text@, style@));
        }
    }
}

/// The fold's state, in code.
struct Folder {
    blocks: Vec<Block>,
    spans: Vec<Span>,
    style: Style,
    lists: Vec<Option<u64>>,
    items: Vec<ItemFrame>,
    heading: Option<u8>,
    in_quote: bool,
    code: Option<(String, String)>,
}

pub open spec fn code_view(c: Option<(String, String)>) -> Option<(Seq<char>, Seq<char>)> {
    match c {
        Some((l, t)) => Some((l@, t@)),
        None => None,
    }
}

impl View for Folder {
    type V = FoldState;

    closed spec fn view(&self) -> FoldState {
        FoldState {
            blocks: blocks_view(self.blocks@),
            spans: spans_view(self.spans@),
            style: self.style@,
            lists: self.lists@,
            items: self.items@,
            heading: self.heading,
            in_quote: self.in_quote,
            code: code_view(self.code),
        }
    }
}

/// Trailing newlines dropped.
fn strip_trailing_newlines(t: &str) -> (r: String)
    ensures
        r@ == strip_newlines(t@),
{
    let v = chars_of(t);
    let mut n = v.len();
    proof {
        assert(v@.take(v.len() as int) =~= v@);
    }
    while n > 0 && v[n - 1] == '\n'
        invariant
            n <= v.len(),
            strip_newlines(v@) == strip_newlines(v@.take(n as int)),
        decreases n,
    {
        proof {
            assert(v@.take(n as int).drop_last() =~= v@.take(n - 1));
        }
        n -= 1;
    }
    let r = slice_of(v.as_slice(), 0, n);
    proof {
        assert(r@ =~= v@.take(n as int));
    }
    string_of(r.as_slice())
}

impl Folder {
    fn new() -> (f: Folder)
        ensures
            f@ == start_state(),
    {
        let f = Folder {
            blocks: Vec::new(),
            spans: Vec::new(),
            style: Style { strong: false, emph: false, code: false, strike: false, link: None },
            lists: Vec::new(),
            items: Vec::new(),
            heading: None,
            in_quote: false,
            code: None,
        };
        proof {
            assert(f@ =~= start_state());
        }
        f
    }

    /// The pending runs, leaving none.
    fn take_spans(&mut self) -> (r: Vec<Span>)
        ensures
            spans_view(r@) == old(self)@.spans,
            final(self)@ == (FoldState { spans: Seq::empty(), ..old(self)@ }),
    {
        let mut r: Vec<Span> = Vec::new();
        std::mem::swap(&mut r, &mut self.spans);
        proof {
            assert(self@ =~= (FoldState { spans: Seq::empty(), ..old(self)@ }));
        }
        r
    }

    fn push_block(&mut self, b: Block)
        ensures
            final(self)@ == (FoldState { blocks: old(self)@.blocks.push(b@), ..old(self)@ }),
    {
        self.blocks.push(b);
        proof {
            assert(self@ =~= (FoldState { blocks: old(self)@.blocks.push(b@), ..old(self)@ }));
        }
    }

    fn flush_item(&mut self)
        requires
            old(self)@.items.len() > 0,
        ensures
            final(self)@ == flush_item(old(self)@),
    {
        let n = self.items.len();
        let f = self.items[n - 1];
        self.items.set(n - 1, ItemFrame { depth: f.depth, marker: f.marker, flushed: true });
        let sp = self.take_spans();
        self.push_block(Block::Item { depth: f.depth, marker: f.marker, spans: sp });
        proof {
            assert(self@ =~= flush_item(old(self)@));
        }
    }

    fn run(&mut self, text: &str, style_code: bool)
        ensures
            final(self)@ == (FoldState {
                spans: push_span(
                    old(self)@.spans,
                    text@,
                    if style_code {
                        StyleView { code: true, ..old(self)@.style }
                    } else {
                        old(self)@.style
                    },
                ),
                ..old(self)@
            }),
    {
        let mut st = copy_style(&self.style);
        if style_code {
            st.code = true;
        }
        push_run(&mut self.spans, text, &st);
        proof {
            assert(self@ =~= (FoldState {
                spans: push_span(old(self)@.spans, text@, st@),
                ..old(self)@
            }));
        }
    }

    fn step(&mut self, e: &MdEvent)
        ensures
            final(self)@ == fold_step(old(self)@, e@),
    {
        match e {
            MdEvent::StartParagraph => {
                let _ = self.take_spans();
            },
            MdEvent::EndParagraph => {
                if self.spans.len() > 0 {
                    if self.items.len() > 0 {
                        self.flush_item();
                    } else if self.in_quote {
                        let sp = self.take_spans();
                        self.push_block(Block::Quote(sp));
                    } else {
                        let sp = self.take_spans();
                        self.push_block(Block::Paragraph(sp));
                    }
                }
            },
            MdEvent::StartHeading(level) => {
                let _ = self.take_spans();
                self.heading = Some(
                    if *level == 1 {
                        1u8
                    } else if *level == 2 {
                        2u8
                    } else {
                        3u8
                    },
                );
            },
            MdEvent::EndHeading => {
                if let Some(level) = self.heading {
                    let sp = self.take_spans();
                    self.push_block(Block::Heading { level, spans: sp });
                    self.heading = None;
                }
            },
            MdEvent::StartQuote => {
                self.in_quote = true;
            },
            MdEvent::EndQuote => {
                self.in_quote = false;
            },
            MdEvent::StartList(start) => {
                if self.items.len() > 0 && self.spans.len() > 0 {
                    self.flush_item();
                }
                self.lists.push(*start);
            },
            MdEvent::EndList => {
                let _ = self.lists.pop();
            },
            MdEvent::StartItem => {
                let _ = self.take_spans();
                let n = self.lists.len();
                let depth: u8 = if n > 0 {
                    (n - 1) as u8
                } else {
                    0
                };
                let marker = if n > 0 {
                    self.lists[n - 1]
                } else {
                    None
                };
                self.items.push(ItemFrame { depth, marker, flushed: false });
            },
            MdEvent::EndItem => {
                if let Some(f) = self.items.pop() {
                    if !f.flushed || self.spans.len() > 0 {
                        let sp = self.take_spans();
                        self.push_block(Block::Item { depth: f.depth, marker: f.marker, spans: sp });
                    }
                }
                let n = self.lists.len();
                if n > 0 {
                    if let Some(k) = self.lists[n - 1] {
                        let next = if k == u64::MAX {
                            0
                        } else {
                            k + 1
                        };
                        self.lists.set(n - 1, Some(next));
                    }
                }
            },
            MdEvent::StartFencedCode(lang) => {
                self.code = Some((lang.clone(), String::new()));
            },
            MdEvent::StartIndentedCode => {
                self.code = Some((String::new(), String::new()));
            },
            MdEvent::EndCode => {
                let mut c: Option<(String, String)> = None;
                std::mem::swap(&mut c, &mut self.code);
                if let Some((lang, text)) = c {
                    let t = strip_trailing_newlines(text.as_str());
                    self.push_block(Block::Code { lang, text: t });
                }
            },
            MdEvent::StartStrong => {
                self.style.strong = true;
            },
            MdEvent::EndStrong => {
                self.style.strong = false;
            },
            MdEvent::StartEmph => {
                self.style.emph = true;
            },
            MdEvent::EndEmph => {
                self.style.emph = false;
            },
            MdEvent::StartStrike => {
                self.style.strike = true;
            },
            MdEvent::EndStrike => {
                self.style.strike = false;
            },
            MdEvent::StartLink(url) => {
                self.style.link = Some(url.clone());
            },
            MdEvent::EndLink => {
                self.style.link = None;
            },
            MdEvent::Text(t) => {
                let mut c: Option<(String, String)> = None;
                std::mem::swap(&mut c, &mut self.code);
                match c {
                    Some((lang, mut buf)) => {
                        buf.append(t.as_str());
                        self.code = Some((lang, buf));
                    },
                    None => {
                        self.run(t.as_str(), false);
                    },
                }
            },
            MdEvent::Code(t) => {
                self.run(t.as_str(), true);
            },
            MdEvent::SoftBreak => {
                self.run(" ", false);
                proof {
                    reveal_strlit(" ");
                    assert(" "@ =~= seq![' ']);
                }
            },
            MdEvent::HardBreak => {
                self.run("\n", false);
                proof {
                    reveal_strlit("\n");
                    assert("\n"@ =~= seq!['\n']);
                }
            },
            MdEvent::Rule => {
                self.push_block(Block::Rule);
            },
            MdEvent::Html(t) => {
                self.run(t.as_str(), false);
            },
            MdEvent::Other => {},
        }
        proof {
            assert(self@ =~= fold_step(old(self)@, e@));
        }
    }

    fn finish(self) -> (r: Vec<Block>)
        ensures
            blocks_view(r@) == finish(self@),
    {
        let mut me = self;
        let ghost s = me@;
        let mut c: Option<(String, String)> = None;
        std::mem::swap(&mut c, &mut me.code);
        if let Some((lang, text)) = c {
            let t = strip_trailing_newlines(text.as_str());
            me.push_block(Block::Code { lang, text: t });
        }
        if me.spans.len() > 0 {
            let sp = me.take_spans();
            me.push_block(Block::Paragraph(sp));
        }
        proof {
            assert(blocks_view(me.blocks@) =~= finish(s));
        }
        me.blocks
    }
}

/// Folds an event stream into blocks.
pub fn blocks_of(events: &[MdEvent]) -> (r: Vec<Block>)
    ensures
        blocks_view(r@) == blocks_spec(events_view(events@)),
{
    let mut f = Folder::new();
    let mut i: usize = 0;
    let ghost evs = events_view(events@);
    while i < events.len()
        invariant
            i <= events.len(),
            evs == events_view(events@),
            f@ == fold_all(evs.take(i as int)),
        decreases events.len() - i,
    {
        proof {
            assert(evs.take(i + 1).drop_last() =~= evs.take(i as int));
            assert(evs.take(i + 1).last() == events@[i as int]@);
        }
        f.step(&events[i]);
        i += 1;
    }
    proof {
        assert(evs.take(events.len() as int) =~= evs);
    }
    f.finish()
}

/// Parses markdown into a flat block list.
pub fn parse(src: &str) -> (r: Vec<Block>)
    ensures
        blocks_view(r@) == blocks_spec(cmark_events(src@)),
{
    let events = tokenize(src);
    blocks_of(events.as_slice())
}

// ------------------------------------------------------------ laws

/// Runs are never empty, and no two neighbours share a style: identical
/// styling is always merged into one run.
pub open spec fn runs_merged(sp: Seq<SpanView>) -> bool {
    &&& forall|i: int| 0 <= i < sp.len() ==> (#[trigger] sp[i]).text.len() > 0
    &&& forall|i: int| 0 < i < sp.len() ==> (#[trigger] sp[i]).style != sp[i - 1].style
}

pub open spec fn block_merged(b: BlockView) -> bool {
    match b {
        BlockView::Paragraph(s) => runs_merged(s),
        BlockView::Quote(s) => runs_merged(s),
        BlockView::Heading { spans, .. } => runs_merged(spans),
        BlockView::Item { spans, .. } => runs_merged(spans),
        _ => true,
    }
}

pub open spec fn state_merged(s: FoldState) -> bool {
    &&& runs_merged(s.spans)
    &&& forall|k: int| 0 <= k < s.blocks.len() ==> block_merged(#[trigger] s.blocks[k])
}

proof fn lemma_push_span_merged(spans: Seq<SpanView>, text: Seq<char>, style: StyleView)
    requires
        runs_merged(spans),
    ensures
        runs_merged(push_span(spans, text, style)),
{
    let r = push_span(spans, text, style);
    if text.len() > 0 {
        if spans.len() > 0 && spans.last().style == style {
            assert forall|i: int| 0 < i < r.len() implies (#[trigger] r[i]).style != r[i
                - 1].style by {
                assert(r[i].style == spans[i].style);
                assert(r[i - 1].style == spans[i - 1].style);
            }
        }
    }
}

proof fn lemma_step_merged(s: FoldState, e: MdEventView)
    requires
        state_merged(s),
    ensures
        state_merged(fold_step(s, e)),
{
    let t = fold_step(s, e);
    match e {
        MdEventView::Text(x) => {
            lemma_push_span_merged(s.spans, x, s.style);
        },
        MdEventView::Code(x) => {
            lemma_push_span_merged(s.spans, x, StyleView { code: true, ..s.style });
        },
        MdEventView::SoftBreak => {
            lemma_push_span_merged(s.spans, seq![' '], s.style);
        },
        MdEventView::HardBreak => {
            lemma_push_span_merged(s.spans, seq!['\n'], s.style);
        },
        MdEventView::Html(x) => {
            lemma_push_span_merged(s.spans, x, s.style);
        },
        _ => {},
    }
    assert forall|k: int| 0 <= k < t.blocks.len() implies block_merged(#[trigger] t.blocks[k]) by {
        if k < s.blocks.len() {
            assert(t.blocks[k] == s.blocks[k]);
        }
    }
}

proof fn lemma_fold_merged(events: Seq<MdEventView>)
    ensures
        state_merged(fold_all(events)),
    decreases events.len(),
{
    if events.len() > 0 {
        lemma_fold_merged(events.drop_last());
        lemma_step_merged(fold_all(events.drop_last()), events.last());
    }
}

/// Every block's runs are merged: adjacent runs with identical styling
/// become one run, and no run is empty, whatever the event stream.
pub proof fn law_runs_are_merged(events: Seq<MdEventView>)
    ensures
        forall|k: int|
            0 <= k < blocks_spec(events).len() ==> block_merged(#[trigger] blocks_spec(events)[k]),
{
    lemma_fold_merged(events);
    let s = fold_all(events);
    let b = blocks_spec(events);
    assert forall|k: int| 0 <= k < b.len() implies block_merged(#[trigger] b[k]) by {
        if k < s.blocks.len() {
            assert(b[k] == s.blocks[k]);
        }
    }
}

proof fn lemma_fold_four(evs: Seq<MdEventView>, a: MdEventView, b: MdEventView, c: MdEventView, d: MdEventView)
    ensures
        fold_all(evs + seq![a, b, c, d]) == fold_step(
            fold_step(fold_step(fold_step(fold_all(evs), a), b), c),
            d,
        ),
{
    let e4 = evs + seq![a, b, c, d];
    assert(e4.drop_last() =~= evs + seq![a, b, c]);
    assert((evs + seq![a, b, c]).drop_last() =~= evs + seq![a, b]);
    assert((evs + seq![a, b]).drop_last() =~= evs.push(a));
    assert(evs.push(a).drop_last() =~= evs);
    assert((evs + seq![a, b]) =~= evs.push(a).push(b));
    assert((evs + seq![a, b, c]) =~= evs.push(a).push(b).push(c));
    assert(e4 =~= evs.push(a).push(b).push(c).push(d));
    let s1 = fold_all(evs.push(a));
    assert(s1 == fold_step(fold_all(evs), a));
    let s2 = fold_all(evs.push(a).push(b));
    assert(evs.push(a).push(b).drop_last() =~= evs.push(a));
    assert(s2 == fold_step(s1, b));
    let s3 = fold_all(evs.push(a).push(b).push(c));
    assert(evs.push(a).push(b).push(c).drop_last() =~= evs.push(a).push(b));
    assert(s3 == fold_step(s2, c));
    assert(evs.push(a).push(b).push(c).push(d).drop_last() =~= evs.push(a).push(b).push(c));
    assert(fold_all(e4) == fold_step(s3, d));
}

/// A paragraph of text `t` outside any list item and any code block: after
/// a blockquote has closed it is drawn as a plain paragraph, and inside an
/// open blockquote as a quote, either way holding `t` in the current style.
pub proof fn law_quotes_end_where_they_close(evs: Seq<MdEventView>, t: Seq<char>)
    requires
        t.len() > 0,
        fold_all(evs).items.len() == 0,
        fold_all(evs).code is None,
    ensures
        blocks_spec(
            evs + seq![
                MdEventView::EndQuote,
                MdEventView::StartParagraph,
                MdEventView::Text(t),
                MdEventView::EndParagraph,
            ],
        ) == fold_all(evs).blocks.push(
            BlockView::Paragraph(seq![SpanView { text: t, style: fold_all(evs).style }]),
        ),
        blocks_spec(
            evs + seq![
                MdEventView::StartQuote,
                MdEventView::StartParagraph,
                MdEventView::Text(t),
                MdEventView::EndParagraph,
            ],
        ) == fold_all(evs).blocks.push(
            BlockView::Quote(seq![SpanView { text: t, style: fold_all(evs).style }]),
        ),
{
    let s = fold_all(evs);
    lemma_fold_four(
        evs,
        MdEventView::EndQuote,
        MdEventView::StartParagraph,
        MdEventView::Text(t),
        MdEventView::EndParagraph,
    );
    lemma_fold_four(
        evs,
        MdEventView::StartQuote,
        MdEventView::StartParagraph,
        MdEventView::Text(t),
        MdEventView::EndParagraph,
    );
    assert(push_span(Seq::empty(), t, s.style) =~= seq![SpanView { text: t, style: s.style }]);
}

/// Inline styling is scoped to its span: opening and then closing bold,
/// italic, strikethrough or a link leaves the style as it was before, when
/// that styling was not already on; and opening it turns it on.
pub proof fn law_inline_styles_close(s: FoldState, url: Seq<char>)
    ensures
        fold_step(s, MdEventView::StartStrong).style.strong,
        fold_step(s, MdEventView::StartEmph).style.emph,
        fold_step(s, MdEventView::StartStrike).style.strike,
        fold_step(s, MdEventView::StartLink(url)).style.link == Some(url),
        !s.style.strong ==> fold_step(fold_step(s, MdEventView::StartStrong), MdEventView::EndStrong)
            == s,
        !s.style.emph ==> fold_step(fold_step(s, MdEventView::StartEmph), MdEventView::EndEmph)
            == s,
        !s.style.strike ==> fold_step(fold_step(s, MdEventView::StartStrike), MdEventView::EndStrike)
            == s,
        s.style.link is None ==> fold_step(
            fold_step(s, MdEventView::StartLink(url)),
            MdEventView::EndLink,
        ) == s,
{
}

proof fn lemma_fold_three(evs: Seq<MdEventView>, a: MdEventView, b: MdEventView, c: MdEventView)
    ensures
        fold_all(evs + seq![a, b, c]) == fold_step(fold_step(fold_step(fold_all(evs), a), b), c),
{
    assert(evs.push(a).drop_last() =~= evs);
    assert(evs.push(a).push(b).drop_last() =~= evs.push(a));
    assert(evs.push(a).push(b).push(c).drop_last() =~= evs.push(a).push(b));
    assert(evs + seq![a, b, c] =~= evs.push(a).push(b).push(c));
    assert(fold_all(evs.push(a)) == fold_step(fold_all(evs), a));
    assert(fold_all(evs.push(a).push(b)) == fold_step(fold_all(evs.push(a)), b));
}

/// A heading of text `t` is drawn as a heading of that text at its level,
/// levels deeper than 3 drawn at 3, after whatever came before it (outside
/// a code block).
pub proof fn law_headings_keep_their_level(evs: Seq<MdEventView>, level: u8, t: Seq<char>)
    requires
        t.len() > 0,
        1 <= level,
        fold_all(evs).code is None,
    ensures
        blocks_spec(
            evs + seq![
                MdEventView::StartHeading(level),
                MdEventView::Text(t),
                MdEventView::EndHeading,
            ],
        ) == fold_all(evs).blocks.push(
            BlockView::Heading {
                level: if level <= 3 {
                    level
                } else {
                    3u8
                },
                spans: seq![SpanView { text: t, style: fold_all(evs).style }],
            },
        ),
{
    let s = fold_all(evs);
    lemma_fold_three(
        evs,
        MdEventView::StartHeading(level),
        MdEventView::Text(t),
        MdEventView::EndHeading,
    );
    assert(push_span(Seq::empty(), t, s.style) =~= seq![SpanView { text: t, style: s.style }]);
}

} // verus!

verus! {

// ------------------------------------------------------------ drawing helpers

/// The font family a run is drawn in: monospace for code, otherwise the
/// face matching its weight and slant.
pub open spec fn family_name(s: StyleView) -> Seq<char> {
    if s.code {
        FAMILY_MONO@
    } else if s.strong && s.emph {
        FAMILY_BOLD_ITALIC@
    } else if s.strong {
        FAMILY_BOLD@
    } else if s.emph {
        FAMILY_ITALIC@
    } else {
        FAMILY_UI@
    }
}

/// The font family a run with this styling is drawn in.
pub fn family_for(style: &Style) -> (r: &'static str)
    ensures
        r@ == family_name(style@),
{
    if style.code {
        FAMILY_MONO
    } else if style.strong && style.emph {
        FAMILY_BOLD_ITALIC
    } else if style.strong {
        FAMILY_BOLD
    } else if style.emph {
        FAMILY_ITALIC
    } else {
        FAMILY_UI
    }
}

/// The runs of one block when it is drawn on a single line: its text, with a
/// code block becoming one run of code and a rule becoming nothing.
pub open spec fn block_inline(b: BlockView) -> Seq<SpanView> {
    match b {
        BlockView::Paragraph(s) => s,
        BlockView::Quote(s) => s,
        BlockView::Heading { spans, .. } => spans,
        BlockView::Item { spans, .. } => spans,
        BlockView::Code { text, .. } => seq![
            SpanView {
                text,
                style: StyleView { strong: false, emph: false, code: true, strike: false, link: None },
            },
        ],
        BlockView::Rule => Seq::empty(),
    }
}

/// Every block's runs, one after another.
pub open spec fn inline_spec(bs: Seq<BlockView>) -> Seq<SpanView>
    decreases bs.len(),
{
    if bs.len() == 0 {
        Seq::empty()
    } else {
        inline_spec(bs.drop_last()) + block_inline(bs.last())
    }
}

/// Flattens parsed markdown into the runs of a single line, for a title.
pub fn inline_spans(blocks: Vec<Block>) -> (r: Vec<Span>)
    ensures
        spans_view(r@) == inline_spec(blocks_view(blocks@)),
{
    let ghost all = blocks@;
    let mut rest = blocks;
    let mut out: Vec<Span> = Vec::new();
    proof {
        assert(all.skip(0) =~= all);
        assert(blocks_view(all.take(0)) =~= Seq::<BlockView>::empty());
        assert(spans_view(out@) =~= Seq::<SpanView>::empty());
    }
    while rest.len() > 0
        invariant
            rest@.len() <= all.len(),
            rest@ == all.skip(all.len() - rest@.len()),
            spans_view(out@) == inline_spec(blocks_view(all.take(all.len() - rest@.len()))),
        decreases rest@.len(),
    {
        let ghost k = all.len() - rest@.len();
        let ghost before = out@;
        let b = rest.remove(0);
        let mut piece: Vec<Span> = match b {
            Block::Paragraph(s) => s,
            Block::Quote(s) => s,
            Block::Heading { spans, .. } => spans,
            Block::Item { spans, .. } => spans,
            Block::Code { text, .. } => vec![
                Span {
                    text,
                    style: Style { strong: false, emph: false, code: true, strike: false, link: None },
                },
            ],
            Block::Rule => Vec::new(),
        };
        proof {
            assert(b == all[k]);
            assert(spans_view(piece@) =~= block_inline(all[k]@));
        }
        out.append(&mut piece);
        proof {
            assert(rest@ =~= all.skip(k + 1));
            let bv = blocks_view(all.take(k + 1));
            assert(bv.drop_last() =~= blocks_view(all.take(k)));
            assert(bv.last() == all[k]@);
            assert(spans_view(out@) =~= spans_view(before) + block_inline(all[k]@));
        }
    }
    proof {
        assert(all.take(all.len() as int) =~= all);
    }
    out
}

} // verus!
