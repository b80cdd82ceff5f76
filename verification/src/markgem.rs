//! Markdown rendered as Gemtext.

use vstd::prelude::*;
use vstd::utf8::encode_utf8;
use crate::event::{
    markdown_events, parse_events, views_of, Element, ElementView, Event, EventView,
};
use crate::front_matter::{strip_matter, strip_spec};
use crate::gemtext::{
    decimal_digits, emitted, flushed_links, gemtext, heading_marker, initial_state,
    lemma_decimal_digits_length, lemma_trimmed_end, link_line, link_lines, link_marker, run, step,
    trimmed, LinkView, RenderState, ASTERISK, DIGIT_ZERO, EQUALS_SIGN, GREATER_THAN, LEFT_BRACKET,
    MAX_HEADING_LEVEL, NEWLINE, NUMBER_SIGN, RIGHT_BRACKET, SPACE, TILDE,
};

verus! {

/// A link that waits in the queue for the end of its paragraph.
#[derive(Clone, Copy)]
pub struct Link<'a> {
    pub destination: &'a str,
    /// The title attribute of the link, not the text in square brackets.
    pub title: &'a str,
}

impl<'a> View for Link<'a> {
    type V = LinkView;

    open spec fn view(&self) -> LinkView {
        LinkView { destination: self.destination@, title: self.title@ }
    }
}

/// Renders events into a buffer, one at a time.
pub struct Converter<'a> {
    out: Vec<u8>,
    next_link_id: usize,
    links: Vec<Link<'a>>,
}

impl<'a> View for Converter<'a> {
    type V = RenderState;

    closed spec fn view(&self) -> RenderState {
        RenderState {
            out: self.out@,
            next_link_id: self.next_link_id as nat,
            links: self.links@.map_values(|link: Link<'a>| link@),
        }
    }
}

/// Appends the digits of a number in base ten.
fn push_decimal(out: &mut Vec<u8>, number: usize)
    ensures
        final(out)@ == old(out)@ + decimal_digits(number as nat),
    decreases number,
{
    if number >= 10 {
        push_decimal(out, number / 10);
    }
    let digit: u8 = (number % 10) as u8;
    out.push(DIGIT_ZERO + digit);
}

impl<'a> Converter<'a> {
    /// A converter before the first event.
    pub fn new() -> (converter: Self)
        ensures
            converter@ == initial_state(),
            converter@.well_formed(),
    {
        let converter = Converter { out: Vec::new(), next_link_id: 1, links: Vec::new() };
        assert(converter@.links =~= Seq::empty());
        converter
    }

    /// Writes bytes to the output as they are.
    fn write_bytes(&mut self, bytes: &[u8])
        ensures
            final(self)@ == (RenderState { out: old(self)@.out + bytes@, ..old(self)@ }),
    {
        self.out.extend_from_slice(bytes);
        assert(self.out@ =~= old(self).out@ + bytes@);
    }

    /// Writes a text to the output as it is.
    pub fn write(&mut self, text: &str)
        ensures
            final(self)@ == (RenderState {
                out: old(self)@.out + encode_utf8(text@),
                ..old(self)@
            }),
            old(self)@.well_formed() ==> final(self)@.well_formed(),
    {
        self.write_bytes(text.as_bytes());
    }

    /// Queues a link for the end of its paragraph and writes its number in its place.
    pub fn handle_link(&mut self, destination: &'a str, title: &'a str)
        requires
            old(self)@.well_formed(),
        ensures
            final(self)@ == step(
                old(self)@,
                EventView::End(ElementView::Link(destination@, title@)),
            ),
            final(self)@.well_formed(),
    {
        let link = Link { destination, title };
        self.links.push(link);
        assert(self@.links =~= old(self)@.links.push(link@));
        self.out.push(LEFT_BRACKET);
        push_decimal(&mut self.out, self.next_link_id);
        self.out.push(RIGHT_BRACKET);
        proof {
            lemma_decimal_digits_length(self.next_link_id as nat);
            assert(self.out@ =~= old(self).out@ + link_marker(old(self).next_link_id as nat));
        }
        assert(self.next_link_id < usize::MAX) by {
            assert(3 * (self.next_link_id - 1) <= old(self).out.len());
        }
        self.next_link_id = self.next_link_id + 1;
    }

    /// Writes the links that wait, each on a line of its own, and an empty line after
    /// them; the queue is empty afterwards.
    pub fn write_pending_links(&mut self)
        ensures
            final(self)@ == (RenderState {
                out: old(self)@.out + flushed_links(old(self)@.links),
                next_link_id: old(self)@.next_link_id,
                links: Seq::empty(),
            }),
            old(self)@.well_formed() ==> final(self)@.well_formed(),
    {
        let count = self.links.len();
        if count == 0 {
            assert(self@.links =~= Seq::empty());
            return ;
        }
        let ghost before = self@;
        let mut i: usize = 0;
        while i < count
            invariant
                i <= count == before.links.len(),
                self@.links == before.links,
                self@.next_link_id == before.next_link_id,
                self@.out == before.out + link_lines(before.links.take(i as int)),
            decreases count - i,
        {
            let link = self.links[i];
            self.write_bytes(&[EQUALS_SIGN, GREATER_THAN, SPACE]);
            self.write(link.destination);
            if !link.title.is_empty() {
                self.write_bytes(&[SPACE]);
                self.write(link.title);
            }
            self.write_bytes(&[NEWLINE]);
            assert(before.links.take(i + 1).drop_last() =~= before.links.take(i as int));
            i = i + 1;
        }
        self.write_bytes(&[NEWLINE]);
        self.links.clear();
        assert(before.links.take(count as int) =~= before.links);
        assert(self@.links =~= Seq::empty());
        assert(self@.out =~= before.out + flushed_links(before.links));
    }

    /// Writes the start of a heading line.
    fn write_heading(&mut self, level: u32)
        ensures
            final(self)@ == (RenderState {
                out: old(self)@.out + heading_marker(level as nat),
                ..old(self)@
            }),
    {
        let signs: u32 = if level < MAX_HEADING_LEVEL {
            level
        } else {
            MAX_HEADING_LEVEL
        };
        let ghost before = self@;
        let mut written: u32 = 0;
        while written < signs
            invariant
                written <= signs,
                self@.links == before.links,
                self@.next_link_id == before.next_link_id,
                self@.out == before.out + Seq::new(written as nat, |i: int| NUMBER_SIGN),
            decreases signs - written,
        {
            self.write_bytes(&[NUMBER_SIGN]);
            written = written + 1;
        }
        self.write_bytes(&[SPACE]);
        assert(self@.out =~= before.out + heading_marker(level as nat));
    }

    /// Renders one event.
    pub fn handle_event(&mut self, event: &'a Event)
        requires
            old(self)@.well_formed(),
        ensures
            final(self)@ == step(old(self)@, event@),
            final(self)@.well_formed(),
    {
        match event {
            Event::Start(Element::Emphasis) | Event::End(Element::Emphasis) => {
                self.write_bytes(&[ASTERISK]);
            },
            Event::Start(Element::Strong) | Event::End(Element::Strong) => {
                self.write_bytes(&[ASTERISK, ASTERISK]);
            },
            Event::Start(Element::Strikethrough) | Event::End(Element::Strikethrough) => {
                self.write_bytes(&[TILDE, TILDE]);
            },
            Event::Start(Element::BlockQuote) => {
                self.write_bytes(&[GREATER_THAN]);
            },
            Event::Start(Element::Item) => {
                self.write_bytes(&[ASTERISK, SPACE]);
            },
            Event::End(Element::Item) => {
                self.write_bytes(&[NEWLINE]);
            },
            Event::End(Element::List) => {
                self.write_bytes(&[NEWLINE]);
            },
            Event::Start(Element::Heading(level)) => {
                self.write_heading(*level);
            },
            Event::End(Element::Heading(_)) => {
                self.write_bytes(&[NEWLINE, NEWLINE]);
            },
            Event::End(Element::Paragraph) => {
                self.write_bytes(&[NEWLINE, NEWLINE]);
                self.write_pending_links();
            },
            Event::End(Element::Link(destination, title)) => {
                self.handle_link(destination.as_str(), title.as_str());
            },
            Event::Text(text) => {
                self.write(text.as_str());
            },
            Event::SoftBreak => {
                self.write_bytes(&[SPACE]);
            },
            _ => {},
        }
        assert(self@.out =~= old(self)@.out + emitted(old(self)@, event@));
    }

    /// Renders the events in order and hands out what was written.
    pub fn convert(self, events: &'a [Event]) -> (out: Vec<u8>)
        requires
            self@.well_formed(),
        ensures
            out@ == run(self@, views_of(events@)).out,
    {
        let ghost views = views_of(events@);
        let mut converter = self;
        let mut i: usize = 0;
        while i < events.len()
            invariant
                i <= events.len(),
                views == views_of(events@),
                converter@.well_formed(),
                converter@ == run(self@, views.take(i as int)),
            decreases events.len() - i,
        {
            converter.handle_event(&events[i]);
            assert(views.take(i + 1).drop_last() =~= views.take(i as int));
            i = i + 1;
        }
        assert(views.take(i as int) =~= views);
        converter.out
    }
}

/// Renders a document given by its events: the events in order, then the newlines
/// at the end of the output taken off.
pub fn render(events: &[Event]) -> (bytes: Vec<u8>)
    ensures
        bytes@ == gemtext(views_of(events@)),
        bytes@.len() == 0 || bytes@.last() != NEWLINE,
{
    let converter = Converter::new();
    let mut out = converter.convert(events);
    let ghost whole = out@;
    while out.len() > 0 && out[out.len() - 1] == NEWLINE
        invariant
            trimmed(out@) == trimmed(whole),
        decreases out.len(),
    {
        out.pop();
    }
    proof {
        lemma_trimmed_end(whole);
    }
    out
}

/// Why a conversion fails.
#[derive(Debug)]
pub enum ConvertError {
    /// The buffer that takes the output did not accept a write.
    WriteFault,
}

/// The Gemtext of a Markdown text: the text without its front matter, parsed into
/// events and rendered.
pub open spec fn document_gemtext(markdown: Seq<char>) -> Seq<u8> {
    gemtext(markdown_events(strip_spec(markdown)))
}

/// Converts Markdown to Gemtext.
///
/// The output is written to a buffer in memory, which accepts every write, so the
/// conversion succeeds on every text.
pub fn to_gemini(markdown: &str) -> (result: Result<Vec<u8>, ConvertError>)
    ensures
        result matches Ok(bytes) && bytes@ == document_gemtext(markdown@),
        result matches Ok(bytes) && (bytes@.len() == 0 || bytes@.last() != NEWLINE),
{
    let markdown = strip_matter(markdown);
    let events = parse_events(markdown);
    Ok(render(events.as_slice()))
}

} // verus!
