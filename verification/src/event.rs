//! The structural events of a Markdown document.

use vstd::prelude::*;

verus! {

/// An element that encloses other events between its start and its end.
#[derive(Debug, PartialEq, Eq)]
pub enum Element {
    Paragraph,
    /// A heading with its level, which is one for the topmost headings.
    Heading(u32),
    BlockQuote,
    /// A list, ordered or not.
    List,
    /// An item of a list.
    Item,
    Emphasis,
    Strong,
    Strikethrough,
    /// A link with its destination and its title attribute, which may be empty.
    Link(String, String),
    /// Any element that is not rendered.
    Other,
}

/// One step of a document in reading order.
#[derive(Debug, PartialEq, Eq)]
pub enum Event {
    /// The start of an element.
    Start(Element),
    /// The end of an element.
    End(Element),
    /// Text to be shown as it is.
    Text(String),
    /// A line break in the source that is none in the document.
    SoftBreak,
    /// Any event that is not rendered.
    Other,
}

/// The mathematical value of an [`Element`].
pub enum ElementView {
    Paragraph,
    Heading(nat),
    BlockQuote,
    List,
    Item,
    Emphasis,
    Strong,
    Strikethrough,
    Link(Seq<char>, Seq<char>),
    Other,
}

/// The mathematical value of an [`Event`].
pub enum EventView {
    Start(ElementView),
    End(ElementView),
    Text(Seq<char>),
    SoftBreak,
    Other,
}

impl View for Element {
    type V = ElementView;

    open spec fn view(&self) -> ElementView {
        match *self {
            Element::Paragraph => ElementView::Paragraph,
            Element::Heading(level) => ElementView::Heading(level as nat),
            Element::BlockQuote => ElementView::BlockQuote,
            Element::List => ElementView::List,
            Element::Item => ElementView::Item,
            Element::Emphasis => ElementView::Emphasis,
            Element::Strong => ElementView::Strong,
            Element::Strikethrough => ElementView::Strikethrough,
            Element::Link(destination, title) => ElementView::Link(destination@, title@),
            Element::Other => ElementView::Other,
        }
    }
}

impl View for Event {
    type V = EventView;

    open spec fn view(&self) -> EventView {
        match *self {
            Event::Start(element) => EventView::Start(element@),
            Event::End(element) => EventView::End(element@),
            Event::Text(text) => EventView::Text(text@),
            Event::SoftBreak => EventView::SoftBreak,
            Event::Other => EventView::Other,
        }
    }
}

/// The values of a sequence of events, in the same order.
pub open spec fn views_of(events: Seq<Event>) -> Seq<EventView> {
    events.map_values(|event: Event| event@)
}

/// The events that `pulldown_cmark::Parser::new_ext` yields for a text with
/// `Options::ENABLE_STRIKETHROUGH`, in their order, each taken as far as [`Event`] and
/// [`Element`] hold it. Nothing is stated of which events a text has: the parser is
/// trusted to yield the same events for the same text.
pub uninterp spec fn markdown_events(text: Seq<char>) -> Seq<EventView>;

/// `pulldown_cmark::Tag`, which the parser hands to [`element_of`].
#[verifier::external_type_specification]
#[verifier::external_body]
pub struct ExMarkdownTag<'a>(pulldown_cmark::Tag<'a>);

/// Tells the variants of `pulldown_cmark::Tag` apart and moves over the level of a
/// heading and the destination and title of a link. It is the part of [`parse_events`]
/// that reads the tag of an event, and nothing is claimed of it by itself.
#[verifier::external_body]
fn element_of(tag: pulldown_cmark::Tag<'_>) -> Element {
    match tag {
        pulldown_cmark::Tag::Paragraph => Element::Paragraph,
        pulldown_cmark::Tag::Heading(level) => Element::Heading(level),
        pulldown_cmark::Tag::BlockQuote => Element::BlockQuote,
        pulldown_cmark::Tag::List(_) => Element::List,
        pulldown_cmark::Tag::Item => Element::Item,
        pulldown_cmark::Tag::Emphasis => Element::Emphasis,
        pulldown_cmark::Tag::Strong => Element::Strong,
        pulldown_cmark::Tag::Strikethrough => Element::Strikethrough,
        pulldown_cmark::Tag::Link(_, to, title) => {
            Element::Link(to.into_string(), title.into_string())
        },
        _ => Element::Other,
    }
}

/// Runs `pulldown_cmark::Parser::new_ext` with `Options::ENABLE_STRIKETHROUGH` over a
/// text and collects the events that the parser yields, telling the variants of
/// `pulldown_cmark::Event` apart. The claim is that the events depend on the text
/// alone: they are the ones that [`markdown_events`] names.
#[verifier::external_body]
pub(crate) fn parse_events(markdown: &str) -> (events: Vec<Event>)
    ensures
        views_of(events@) == markdown_events(markdown@),
{
    let options = pulldown_cmark::Options::ENABLE_STRIKETHROUGH;
    let mut events = Vec::new();
    for event in pulldown_cmark::Parser::new_ext(markdown, options) {
        events.push(match event {
            pulldown_cmark::Event::Start(tag) => Event::Start(element_of(tag)),
            pulldown_cmark::Event::End(tag) => Event::End(element_of(tag)),
            pulldown_cmark::Event::Text(text) => Event::Text(text.into_string()),
            pulldown_cmark::Event::SoftBreak => Event::SoftBreak,
            _ => Event::Other,
        });
    }
    events
}

} // verus!
