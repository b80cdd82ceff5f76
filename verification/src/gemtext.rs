//! What rendering a sequence of document events as Gemtext means.
//!
//! Rendering walks the events once, in order. Its state is the output written so far,
//! the number that the next link gets, and the links of the open paragraph, which are
//! written out as link lines when the paragraph ends.

use vstd::prelude::*;
use vstd::utf8::encode_utf8;
use crate::event::{ElementView, EventView};

verus! {

/// The line feed that ends a line.
pub const NEWLINE: u8 = 0x0A;

/// ` `
pub const SPACE: u8 = 0x20;

/// `#`
pub const NUMBER_SIGN: u8 = 0x23;

/// `*`
pub const ASTERISK: u8 = 0x2A;

/// `0`, after which the other digits follow in order.
pub const DIGIT_ZERO: u8 = 0x30;

/// `=`
pub const EQUALS_SIGN: u8 = 0x3D;

/// `>`
pub const GREATER_THAN: u8 = 0x3E;

/// `[`
pub const LEFT_BRACKET: u8 = 0x5B;

/// `]`
pub const RIGHT_BRACKET: u8 = 0x5D;

/// `~`
pub const TILDE: u8 = 0x7E;

/// The most number signs that start a heading line.
pub const MAX_HEADING_LEVEL: u32 = 3;

/// A link that waits for the end of its paragraph.
pub struct LinkView {
    pub destination: Seq<char>,
    /// The title attribute of the link, not its text; empty if the link has none.
    pub title: Seq<char>,
}

/// The state of a rendering between two events.
pub struct RenderState {
    /// The bytes written so far.
    pub out: Seq<u8>,
    /// The number of the next link: one more than the links seen in the whole document.
    pub next_link_id: nat,
    /// The links of the open paragraph, in the order in which they ended.
    pub links: Seq<LinkView>,
}

impl RenderState {
    /// Every link so far has left its marker, of three bytes at least, in the output,
    /// and the numbers start at one.
    pub open spec fn well_formed(self) -> bool {
        1 <= self.next_link_id && 3 * (self.next_link_id - 1) <= self.out.len()
    }
}

/// The state before the first event.
pub open spec fn initial_state() -> RenderState {
    RenderState { out: Seq::empty(), next_link_id: 1, links: Seq::empty() }
}

/// The digits of a number in base ten, without leading zeros.
pub open spec fn decimal_digits(number: nat) -> Seq<u8>
    decreases number,
{
    if number < 10 {
        seq![(DIGIT_ZERO + number) as u8]
    } else {
        decimal_digits(number / 10).push((DIGIT_ZERO + number % 10) as u8)
    }
}

/// The start of a heading line: one number sign per level, three at most, then a space.
pub open spec fn heading_marker(level: nat) -> Seq<u8> {
    let signs = if level < MAX_HEADING_LEVEL { level } else { MAX_HEADING_LEVEL as nat };
    Seq::new(signs, |i: int| NUMBER_SIGN).push(SPACE)
}

/// What stands in the text in place of a link: its number in square brackets.
pub open spec fn link_marker(id: nat) -> Seq<u8> {
    seq![LEFT_BRACKET] + decimal_digits(id) + seq![RIGHT_BRACKET]
}

/// The line of one link: `=> `, the destination, the title after a space if there is
/// one, and a newline.
pub open spec fn link_line(link: LinkView) -> Seq<u8> {
    let title = if link.title.len() == 0 {
        Seq::empty()
    } else {
        seq![SPACE] + encode_utf8(link.title)
    };
    seq![EQUALS_SIGN, GREATER_THAN, SPACE] + encode_utf8(link.destination) + title + seq![NEWLINE]
}

/// The lines of some links, one after another.
pub open spec fn link_lines(links: Seq<LinkView>) -> Seq<u8>
    decreases links.len(),
{
    if links.len() == 0 {
        Seq::empty()
    } else {
        link_lines(links.drop_last()) + link_line(links.last())
    }
}

/// What the end of a paragraph writes for the links that wait: nothing if there are
/// none, else their lines and one empty line.
pub open spec fn flushed_links(links: Seq<LinkView>) -> Seq<u8> {
    if links.len() == 0 {
        Seq::empty()
    } else {
        link_lines(links).push(NEWLINE)
    }
}

/// The bytes that an event adds to the output.
pub open spec fn emitted(state: RenderState, event: EventView) -> Seq<u8> {
    match event {
        EventView::Start(ElementView::Emphasis) | EventView::End(ElementView::Emphasis) => seq![
            ASTERISK,
        ],
        EventView::Start(ElementView::Strong) | EventView::End(ElementView::Strong) => seq![
            ASTERISK,
            ASTERISK,
        ],
        EventView::Start(ElementView::Strikethrough) | EventView::End(
            ElementView::Strikethrough,
        ) => seq![TILDE, TILDE],
        EventView::Start(ElementView::BlockQuote) => seq![GREATER_THAN],
        EventView::Start(ElementView::Item) => seq![ASTERISK, SPACE],
        EventView::End(ElementView::Item) => seq![NEWLINE],
        EventView::End(ElementView::List) => seq![NEWLINE],
        EventView::Start(ElementView::Heading(level)) => heading_marker(level),
        EventView::End(ElementView::Heading(_)) => seq![NEWLINE, NEWLINE],
        EventView::End(ElementView::Paragraph) => seq![NEWLINE, NEWLINE] + flushed_links(
            state.links,
        ),
        EventView::End(ElementView::Link(_, _)) => link_marker(state.next_link_id),
        EventView::Text(text) => encode_utf8(text),
        EventView::SoftBreak => seq![SPACE],
        _ => Seq::empty(),
    }
}

/// The state after an event.
pub open spec fn step(state: RenderState, event: EventView) -> RenderState {
    let out = state.out + emitted(state, event);
    match event {
        EventView::End(ElementView::Link(destination, title)) => RenderState {
            out,
            next_link_id: state.next_link_id + 1,
            links: state.links.push(LinkView { destination, title }),
        },
        EventView::End(ElementView::Paragraph) => RenderState {
            out,
            next_link_id: state.next_link_id,
            links: Seq::empty(),
        },
        _ => RenderState { out, next_link_id: state.next_link_id, links: state.links },
    }
}

/// The state after a sequence of events.
pub open spec fn run(state: RenderState, events: Seq<EventView>) -> RenderState
    decreases events.len(),
{
    if events.len() == 0 {
        state
    } else {
        step(run(state, events.drop_last()), events.last())
    }
}

/// The output for a whole document, before its end is trimmed.
pub open spec fn rendered(events: Seq<EventView>) -> Seq<u8> {
    run(initial_state(), events).out
}

/// A byte sequence without the newlines at its end.
pub open spec fn trimmed(bytes: Seq<u8>) -> Seq<u8>
    decreases bytes.len(),
{
    if bytes.len() > 0 && bytes.last() == NEWLINE {
        trimmed(bytes.drop_last())
    } else {
        bytes
    }
}

/// The Gemtext of a document given by its events.
pub open spec fn gemtext(events: Seq<EventView>) -> Seq<u8> {
    trimmed(rendered(events))
}

/// Whether an event is the end of a link.
pub open spec fn is_link_end(event: EventView) -> bool {
    event matches EventView::End(ElementView::Link(_, _))
}

/// How many links end among some events.
pub open spec fn link_count(events: Seq<EventView>) -> nat
    decreases events.len(),
{
    if events.len() == 0 {
        0
    } else if is_link_end(events.last()) {
        link_count(events.drop_last()) + 1
    } else {
        link_count(events.drop_last())
    }
}

/// The digits of a number are at least one.
pub proof fn lemma_decimal_digits_length(number: nat)
    ensures
        decimal_digits(number).len() >= 1,
    decreases number,
{
    if number >= 10 {
        lemma_decimal_digits_length(number / 10);
    }
}

/// A number of two digits or more has them.
pub proof fn lemma_decimal_digits_of_tens(number: nat)
    requires
        number >= 10,
    ensures
        decimal_digits(number).len() >= 2,
{
    lemma_decimal_digits_length(number / 10);
}

/// Different numbers have different digits.
pub proof fn lemma_decimal_digits_differ(one: nat, other: nat)
    requires
        decimal_digits(one) == decimal_digits(other),
    ensures
        one == other,
    decreases one,
{
    if one >= 10 {
        lemma_decimal_digits_of_tens(one);
    }
    if other >= 10 {
        lemma_decimal_digits_of_tens(other);
    }
    if one >= 10 && other >= 10 {
        // The digits before the last are the same, and so is the last.
        let front = decimal_digits(one / 10);
        let back = decimal_digits(other / 10);
        let last = (DIGIT_ZERO + one % 10) as u8;
        let end = (DIGIT_ZERO + other % 10) as u8;
        assert(front.push(last).drop_last() =~= front);
        assert(back.push(end).drop_last() =~= back);
        assert(front.push(last).last() == last);
        assert(back.push(end).last() == end);
        assert(front == back);
        assert(last == end);
        lemma_decimal_digits_differ(one / 10, other / 10);
        assert(one % 10 == other % 10);
    } else if one < 10 && other < 10 {
        assert(decimal_digits(one)[0] == DIGIT_ZERO + one);
        assert(decimal_digits(other)[0] == DIGIT_ZERO + other);
    } else {
        // One number has a single digit and the other has more.
        assert(decimal_digits(one).len() == decimal_digits(other).len());
    }
}

/// Trimming leaves no newline at the end.
pub proof fn lemma_trimmed_end(bytes: Seq<u8>)
    ensures
        trimmed(bytes).len() == 0 || trimmed(bytes).last() != NEWLINE,
    decreases bytes.len(),
{
    if bytes.len() > 0 && bytes.last() == NEWLINE {
        lemma_trimmed_end(bytes.drop_last());
    }
}

/// Trimming takes newlines from the end and nothing else: what is left is the
/// beginning of the bytes, and every byte after it is a newline.
pub proof fn lemma_trimmed_is_beginning(bytes: Seq<u8>)
    ensures
        trimmed(bytes).len() <= bytes.len(),
        bytes.take(trimmed(bytes).len() as int) == trimmed(bytes),
        forall|i: int| trimmed(bytes).len() <= i < bytes.len() ==> bytes[i] == NEWLINE,
    decreases bytes.len(),
{
    if bytes.len() > 0 && bytes.last() == NEWLINE {
        let shorter = bytes.drop_last();
        lemma_trimmed_is_beginning(shorter);
        assert(bytes.take(trimmed(bytes).len() as int) =~= shorter.take(
            trimmed(shorter).len() as int,
        ));
        assert forall|i: int| trimmed(bytes).len() <= i < bytes.len() implies bytes[i]
            == NEWLINE by {
            if i < shorter.len() {
                assert(shorter[i] == NEWLINE);
            }
        }
    }
}

/// A heading of any level starts its line with one number sign per level, three at
/// most, and one space after them.
pub proof fn lemma_heading_marker(state: RenderState, level: nat)
    ensures
        ({
            let marker = emitted(state, EventView::Start(ElementView::Heading(level)));
            let signs = if level <= 3 { level } else { 3 };
            &&& marker.len() == signs + 1
            &&& forall|i: int| 0 <= i < signs ==> marker[i] == NUMBER_SIGN
            &&& marker[signs as int] == SPACE
        }),
{
}

/// An event never takes anything back from the output, and a state in which every
/// link has left its marker is followed by such a state.
pub proof fn lemma_step_well_formed(state: RenderState, event: EventView)
    requires
        state.well_formed(),
    ensures
        step(state, event).well_formed(),
        step(state, event).out.len() >= state.out.len(),
{
    lemma_decimal_digits_length(state.next_link_id);
}

/// The number of the next link counts the links of the whole document: it is one
/// more than the links that ended so far, whatever paragraphs lie between them.
pub proof fn lemma_next_link_id(events: Seq<EventView>)
    ensures
        run(initial_state(), events).next_link_id == link_count(events) + 1,
    decreases events.len(),
{
    if events.len() > 0 {
        lemma_next_link_id(events.drop_last());
    }
}

/// The links of a document are numbered 1, 2, 3 and so on in the order in which they
/// end: where the event at `at` ends a link, it writes in square brackets one more
/// than the number of links that ended before it.
pub proof fn lemma_link_markers_count_up(events: Seq<EventView>, at: int)
    requires
        0 <= at < events.len(),
        is_link_end(events[at]),
    ensures
        emitted(run(initial_state(), events.take(at)), events[at]) == link_marker(
            link_count(events.take(at)) + 1,
        ),
{
    lemma_next_link_id(events.take(at));
}

/// No number is given twice: of two links, the later one gets the greater number.
pub proof fn lemma_link_numbers_increase(events: Seq<EventView>, earlier: int, later: int)
    requires
        0 <= earlier < later < events.len(),
        is_link_end(events[earlier]),
    ensures
        link_count(events.take(earlier)) + 1 <= link_count(events.take(later)),
{
    let read = events.take(later);
    let first = read.take(earlier + 1);
    assert(first.drop_last() =~= events.take(earlier));
    lemma_link_count_prefix(read, earlier + 1);
}

/// No marker is written twice: two links of a document have different numbers in
/// their square brackets.
pub proof fn lemma_link_markers_differ(events: Seq<EventView>, earlier: int, later: int)
    requires
        0 <= earlier < later < events.len(),
        is_link_end(events[earlier]),
        is_link_end(events[later]),
    ensures
        emitted(run(initial_state(), events.take(earlier)), events[earlier]) != emitted(
            run(initial_state(), events.take(later)),
            events[later],
        ),
{
    lemma_link_markers_count_up(events, earlier);
    lemma_link_markers_count_up(events, later);
    lemma_link_numbers_increase(events, earlier, later);
    let first = link_count(events.take(earlier)) + 1;
    let second = link_count(events.take(later)) + 1;
    if link_marker(first) == link_marker(second) {
        let digits = decimal_digits(first);
        let others = decimal_digits(second);
        assert(link_marker(first).subrange(1, 1 + digits.len() as int) =~= digits);
        assert(link_marker(second).subrange(1, 1 + others.len() as int) =~= others);
        lemma_decimal_digits_differ(first, second);
    }
}

/// Rendering goes through the events once, from first to last: the state after all
/// of them is the state after the first of them, carried on through the rest.
pub proof fn lemma_run_in_two_parts(state: RenderState, events: Seq<EventView>, count: int)
    requires
        0 <= count <= events.len(),
    ensures
        run(state, events) == run(run(state, events.take(count)), events.skip(count)),
    decreases events.len(),
{
    if count == events.len() {
        assert(events.take(count) =~= events);
    } else {
        let earlier = events.drop_last();
        lemma_run_in_two_parts(state, earlier, count);
        assert(earlier.take(count) =~= events.take(count));
        assert(events.skip(count).drop_last() =~= earlier.skip(count));
    }
}

/// What has been written stays: the output after some events begins with the output
/// before them.
pub proof fn lemma_output_grows(state: RenderState, events: Seq<EventView>)
    ensures
        state.out.len() <= run(state, events).out.len(),
        run(state, events).out.take(state.out.len() as int) == state.out,
    decreases events.len(),
{
    if events.len() > 0 {
        let before = run(state, events.drop_last());
        lemma_output_grows(state, events.drop_last());
        assert(step(before, events.last()).out.take(state.out.len() as int) =~= before.out.take(
            state.out.len() as int,
        ));
    }
}

/// In a document without links no link waits at any time.
pub proof fn lemma_no_links_none_pending(events: Seq<EventView>)
    requires
        link_count(events) == 0,
    ensures
        run(initial_state(), events).links.len() == 0,
    decreases events.len(),
{
    if events.len() > 0 {
        lemma_no_links_none_pending(events.drop_last());
    }
}

/// Fewer events hold fewer links.
pub proof fn lemma_link_count_prefix(events: Seq<EventView>, length: int)
    requires
        0 <= length <= events.len(),
    ensures
        link_count(events.take(length)) <= link_count(events),
    decreases events.len(),
{
    if length < events.len() {
        assert(events.drop_last().take(length) =~= events.take(length));
        lemma_link_count_prefix(events.drop_last(), length);
    } else {
        assert(events.take(length) =~= events);
    }
}

/// What some events write while no link waits, one after another.
pub open spec fn plain_tokens(events: Seq<EventView>) -> Seq<u8>
    decreases events.len(),
{
    if events.len() == 0 {
        Seq::empty()
    } else {
        plain_tokens(events.drop_last()) + emitted(initial_state(), events.last())
    }
}

/// The output of a document without links is made of what its events write by
/// themselves: no link line stands anywhere in it.
pub proof fn lemma_no_links_plain_output(events: Seq<EventView>)
    requires
        link_count(events) == 0,
    ensures
        rendered(events) == plain_tokens(events),
    decreases events.len(),
{
    if events.len() > 0 {
        let earlier = events.drop_last();
        lemma_no_links_plain_output(earlier);
        lemma_no_links_none_pending(earlier);
        lemma_next_link_id(earlier);
    }
}

/// In a document without links no link line is written: the end of each paragraph
/// writes its two newlines and nothing else.
pub proof fn lemma_no_links_no_link_lines(events: Seq<EventView>, at: int)
    requires
        link_count(events) == 0,
        0 <= at < events.len(),
        events[at] == EventView::End(ElementView::Paragraph),
    ensures
        emitted(run(initial_state(), events.take(at)), events[at]) == seq![NEWLINE, NEWLINE],
{
    lemma_link_count_prefix(events, at);
    lemma_no_links_none_pending(events.take(at));
}

} // verus!
