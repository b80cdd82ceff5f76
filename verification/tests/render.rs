use exarch::event::{Element, Event};
use exarch::markgem::{render, to_gemini, Converter};

fn text(bytes: Vec<u8>) -> String {
    String::from_utf8(bytes).unwrap()
}

fn link(destination: &str, title: &str) -> Element {
    Element::Link(destination.to_string(), title.to_string())
}

#[test]
fn each_event_writes_its_token() {
    let cases = vec![
        (Event::Start(Element::Emphasis), "*"),
        (Event::End(Element::Emphasis), "*"),
        (Event::Start(Element::Strong), "**"),
        (Event::End(Element::Strong), "**"),
        (Event::Start(Element::Strikethrough), "~~"),
        (Event::End(Element::Strikethrough), "~~"),
        (Event::Start(Element::BlockQuote), ">"),
        (Event::Start(Element::Item), "* "),
        (Event::End(Element::Item), "\n"),
        (Event::End(Element::List), "\n"),
        (Event::End(Element::Heading(2)), "\n\n"),
        (Event::End(Element::Paragraph), "\n\n"),
        (Event::Text("a < b".to_string()), "a < b"),
        (Event::SoftBreak, " "),
    ];
    for (event, token) in cases {
        let events = vec![Event::Text("x".to_string()), event, Event::Text("y".to_string())];
        assert_eq!(text(render(&events)), format!("x{}y", token));
    }
}

#[test]
fn other_events_write_nothing() {
    let silent = vec![
        Event::Other,
        Event::Start(Element::Other),
        Event::End(Element::Other),
        Event::Start(Element::Paragraph),
        Event::Start(Element::List),
        Event::End(Element::BlockQuote),
        Event::Start(link("gemini://a/", "")),
    ];
    for event in silent {
        let events = vec![Event::Text("x".to_string()), event, Event::Text("y".to_string())];
        assert_eq!(text(render(&events)), "xy");
    }
}

#[test]
fn text_is_written_as_utf8() {
    let events = vec![Event::Text("grüße, 世界".to_string())];
    assert_eq!(render(&events), "grüße, 世界".as_bytes().to_vec());
}

#[test]
fn heading_levels_are_capped_at_three() {
    let expected = ["# t", "## t", "### t", "### t", "### t", "### t"];
    for level in 1..=6u32 {
        let events = vec![
            Event::Start(Element::Heading(level)),
            Event::Text("t".to_string()),
            Event::End(Element::Heading(level)),
        ];
        assert_eq!(text(render(&events)), expected[(level - 1) as usize]);
    }
    let deep = vec![Event::Start(Element::Heading(u32::MAX)), Event::Text("t".to_string())];
    assert_eq!(text(render(&deep)), "### t");
}

#[test]
fn heading_of_level_zero_has_no_number_sign() {
    let events = vec![Event::Start(Element::Heading(0)), Event::Text("t".to_string())];
    assert_eq!(text(render(&events)), " t");
}

#[test]
fn links_are_numbered_through_the_document() {
    let mut events = Vec::new();
    for paragraph in 0..4 {
        for _ in 0..3 {
            events.push(Event::Text("t".to_string()));
            events.push(Event::End(link(&format!("gemini://host/{}", paragraph), "")));
        }
        events.push(Event::End(Element::Paragraph));
    }
    let expected = "t[1]t[2]t[3]\n\n\
        => gemini://host/0\n=> gemini://host/0\n=> gemini://host/0\n\n\
        t[4]t[5]t[6]\n\n\
        => gemini://host/1\n=> gemini://host/1\n=> gemini://host/1\n\n\
        t[7]t[8]t[9]\n\n\
        => gemini://host/2\n=> gemini://host/2\n=> gemini://host/2\n\n\
        t[10]t[11]t[12]\n\n\
        => gemini://host/3\n=> gemini://host/3\n=> gemini://host/3";
    assert_eq!(text(render(&events)), expected);
}

#[test]
fn link_numbers_are_written_in_base_ten() {
    let mut events = Vec::new();
    for _ in 0..1203 {
        events.push(Event::End(link("x", "")));
    }
    let rendered = text(render(&events));
    let mut expected = String::new();
    for id in 1..=1203 {
        expected.push_str(&format!("[{}]", id));
    }
    assert_eq!(rendered, expected);
    assert!(rendered.ends_with("[1199][1200][1201][1202][1203]"));
}

#[test]
fn link_line_holds_the_title_only_if_there_is_one() {
    let events = vec![
        Event::End(link("http://x.com", "t")),
        Event::End(link("http://y.com", "")),
        Event::End(link("http://z.com", "two words")),
        Event::End(Element::Paragraph),
        Event::Text("after".to_string()),
    ];
    assert_eq!(
        text(render(&events)),
        "[1][2][3]\n\n=> http://x.com t\n=> http://y.com\n=> http://z.com two words\n\nafter"
    );
}

#[test]
fn links_wait_for_the_end_of_their_paragraph() {
    let events = vec![
        Event::End(link("gemini://a/", "")),
        Event::End(Element::Heading(1)),
        Event::End(Element::Item),
        Event::Text("still waiting".to_string()),
        Event::End(Element::Paragraph),
        Event::End(Element::Paragraph),
        Event::Text("end".to_string()),
    ];
    assert_eq!(text(render(&events)), "[1]\n\n\nstill waiting\n\n=> gemini://a/\n\n\n\nend");
}

#[test]
fn link_in_a_paragraph_with_title() {
    let rendered = text(to_gemini("see [a link](http://x.com \"t\") here").unwrap());
    assert_eq!(rendered, "see a link[1] here\n\n=> http://x.com t");
    let rendered = text(to_gemini("see [a link](http://x.com \"t\") here\n\nnext").unwrap());
    assert_eq!(rendered, "see a link[1] here\n\n=> http://x.com t\n\nnext");
}

#[test]
fn document_without_links_has_no_link_lines() {
    let markdown = "# title\n\
        \n\
        some *text* and **more**\n\
        over ~~two~~ lines\n\
        \n\
        > quoted\n\
        \n\
        * a\n\
        * b\n";
    let rendered = text(to_gemini(markdown).unwrap());
    assert!(!rendered.contains("=>"));
    assert!(!rendered.contains('['));
    assert_eq!(
        rendered,
        "# title\n\nsome *text* and **more** over ~~two~~ lines\n\n>quoted\n\n* a\n* b"
    );
}

#[test]
fn paragraph_end_without_links_writes_two_newlines() {
    let events = vec![
        Event::Text("a".to_string()),
        Event::End(Element::Paragraph),
        Event::Text("b".to_string()),
        Event::End(Element::Paragraph),
        Event::Text("c".to_string()),
    ];
    assert_eq!(text(render(&events)), "a\n\nb\n\nc");
}

#[test]
fn output_never_ends_with_a_newline() {
    let documents =
        ["text\n\n\n\n", "# head\n\n\n", "* a\n* b\n\n\n", "[l](gemini://x/)\n\n", "\n\n\n", ""];
    for markdown in documents {
        let bytes = to_gemini(markdown).unwrap();
        assert_ne!(bytes.last(), Some(&b'\n'));
    }
    let events = vec![
        Event::Text("x\n".to_string()),
        Event::End(Element::Item),
        Event::End(Element::List),
        Event::End(Element::Paragraph),
    ];
    assert_eq!(text(render(&events)), "x");
    let only_newlines =
        vec![Event::End(Element::Paragraph), Event::Text("\n\n".to_string())];
    assert_eq!(render(&only_newlines), Vec::<u8>::new());
}

#[test]
fn only_the_end_is_trimmed() {
    let events = vec![Event::Text("\n\na\n\nb \n".to_string())];
    assert_eq!(text(render(&events)), "\n\na\n\nb ");
}

#[test]
fn empty_document_renders_to_nothing() {
    assert_eq!(render(&[]), Vec::<u8>::new());
    assert_eq!(to_gemini("").unwrap(), Vec::<u8>::new());
}

#[test]
fn converter_writes_and_queues() {
    let mut converter = Converter::new();
    converter.write("see ");
    converter.handle_link("gemini://a/", "");
    converter.write(" and ");
    converter.handle_link("gemini://b/", "bee");
    assert_eq!(text(converter.convert(&[])), "see [1] and [2]");

    let mut converter = Converter::new();
    converter.handle_link("gemini://a/", "");
    converter.handle_link("gemini://b/", "bee");
    converter.write_pending_links();
    converter.write_pending_links();
    converter.handle_link("gemini://c/", "");
    converter.write_pending_links();
    assert_eq!(
        text(converter.convert(&[])),
        "[1][2]=> gemini://a/\n=> gemini://b/ bee\n\n[3]=> gemini://c/\n\n"
    );
}

#[test]
fn converter_with_empty_queue_writes_no_lines() {
    let mut converter = Converter::new();
    converter.write("x");
    converter.write_pending_links();
    assert_eq!(text(converter.convert(&[])), "x");
}

#[test]
fn converter_goes_on_from_its_state() {
    let events = vec![Event::End(link("gemini://b/", "")), Event::End(Element::Paragraph)];
    let mut converter = Converter::new();
    converter.handle_link("gemini://a/", "");
    converter.handle_event(&events[0]);
    let tail = vec![Event::End(Element::Paragraph)];
    assert_eq!(text(converter.convert(&tail)), "[1][2]\n\n=> gemini://a/\n=> gemini://b/\n\n");
}

#[test]
fn parser_events_reach_the_renderer() {
    // Emphasis, strong and strikethrough are told apart by the parser.
    let rendered = text(to_gemini("*a* **b** ~~c~~").unwrap());
    assert_eq!(rendered, "*a* **b** ~~c~~");
    // Inline code, images and rules are not rendered.
    let rendered = text(to_gemini("a `code` b\n\n---\n\nc").unwrap());
    assert_eq!(rendered, "a  b\n\nc");
}
