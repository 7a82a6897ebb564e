use markdown_img_url_editor::editor::MarkdownImgUrlEditor;
use markdown_img_url_editor::events::{MarkdownEvent, SpannedEvent};
use markdown_img_url_editor::locator::{collect_images, locate_images, ImageReference};
use markdown_img_url_editor::resolver::resolve_url_range;
use markdown_img_url_editor::span::{EditError, Span};
use markdown_img_url_editor::splicer::splice;

fn at(event: MarkdownEvent, start: usize, end: usize) -> SpannedEvent {
    SpannedEvent { event, span: Span { start, end } }
}

#[test]
fn text_runs_of_an_image_are_joined_by_one_space() {
    let events = vec![
        at(MarkdownEvent::Text(String::from("outside")), 0, 7),
        at(MarkdownEvent::ImageStart, 8, 30),
        at(MarkdownEvent::Text(String::from("one")), 10, 13),
        at(MarkdownEvent::Other, 13, 14),
        at(MarkdownEvent::Text(String::from("two")), 14, 17),
        at(MarkdownEvent::Text(String::from("three")), 18, 23),
        at(MarkdownEvent::ImageEnd(String::from("u.png")), 8, 30),
        at(MarkdownEvent::Text(String::from("after")), 31, 36),
    ];
    let images = collect_images(&events);
    assert_eq!(images.len(), 1);
    assert_eq!(images[0].alt_text, "one two three");
    assert_eq!(images[0].decoded_url, "u.png");
    assert_eq!(images[0].enclosing_span, Span { start: 8, end: 30 });
}

#[test]
fn image_without_text_has_an_empty_alt_text() {
    let events = vec![
        at(MarkdownEvent::ImageStart, 0, 9),
        at(MarkdownEvent::ImageEnd(String::from("u.png")), 0, 9),
    ];
    let images = collect_images(&events);
    assert_eq!(images.len(), 1);
    assert_eq!(images[0].alt_text, "");
}

#[test]
fn image_end_resets_the_gathering() {
    let events = vec![
        at(MarkdownEvent::ImageStart, 0, 10),
        at(MarkdownEvent::Text(String::from("first")), 2, 7),
        at(MarkdownEvent::ImageEnd(String::from("a.png")), 0, 10),
        at(MarkdownEvent::Text(String::from("between")), 10, 17),
        at(MarkdownEvent::ImageEnd(String::from("stray.png")), 17, 20),
        at(MarkdownEvent::ImageStart, 20, 30),
        at(MarkdownEvent::Text(String::from("second")), 22, 28),
        at(MarkdownEvent::ImageEnd(String::from("b.png")), 20, 30),
    ];
    let images = collect_images(&events);
    let alts: Vec<&str> = images.iter().map(|image| image.alt_text.as_str()).collect();
    assert_eq!(alts, vec!["first", "", "second"]);
}

#[test]
fn no_events_no_images() {
    assert!(collect_images(&Vec::new()).is_empty());
}

#[test]
fn tokenizer_reports_the_span_of_the_whole_image() {
    let text = "see ![alt text](pic.png) here";
    let images = locate_images(text);
    assert_eq!(images.len(), 1);
    assert_eq!(images[0].alt_text, "alt text");
    assert_eq!(images[0].decoded_url, "pic.png");
    assert_eq!(images[0].enclosing_span, Span { start: 4, end: 24 });
}

#[test]
fn tokenizer_decodes_entities_in_the_url() {
    let images = locate_images("![a](a&amp;b.png)");
    assert_eq!(images.len(), 1);
    assert_eq!(images[0].decoded_url, "a&b.png");
}

#[test]
fn image_syntax_inside_a_code_block_is_no_image() {
    let images = locate_images("```markdown\n![2](2.png)\n```\n");
    assert!(images.is_empty());
}

#[test]
fn last_occurrence_inside_the_span_is_taken() {
    let text = "![1.png](1.png) 1.png";
    let whole = Span { start: 0, end: 15 };
    assert_eq!(resolve_url_range(text, "1.png", whole), Ok(Span { start: 9, end: 14 }));
    let all = Span { start: 0, end: text.len() };
    assert_eq!(resolve_url_range(text, "1.png", all), Ok(Span { start: 16, end: 21 }));
    let alt_only = Span { start: 0, end: 13 };
    assert_eq!(resolve_url_range(text, "1.png", alt_only), Ok(Span { start: 2, end: 7 }));
}

#[test]
fn range_is_counted_from_the_start_of_the_text() {
    let text = "0123456789![a](u)";
    let span = Span { start: 10, end: 17 };
    assert_eq!(resolve_url_range(text, "u", span), Ok(Span { start: 15, end: 16 }));
}

#[test]
fn url_outside_the_span_is_not_found() {
    let text = "1.png ![a](2.png)";
    let span = Span { start: 6, end: 17 };
    assert_eq!(resolve_url_range(text, "1.png", span), Err(EditError::UrlNotFound));
    assert_eq!(resolve_url_range(text, "2.png", Span { start: 6, end: 15 }), Err(EditError::UrlNotFound));
}

#[test]
fn span_that_is_no_slice_of_the_text_holds_nothing() {
    let text = "![a](1.png)";
    assert_eq!(resolve_url_range(text, "1.png", Span { start: 0, end: 12 }), Err(EditError::UrlNotFound));
    assert_eq!(resolve_url_range(text, "1.png", Span { start: 8, end: 3 }), Err(EditError::UrlNotFound));
}

#[test]
fn empty_url_is_found_at_the_end_of_the_span() {
    let text = "![a]()";
    assert_eq!(
        resolve_url_range(text, "", Span { start: 0, end: 6 }),
        Ok(Span { start: 6, end: 6 })
    );
}

#[test]
fn url_longer_than_the_span_is_not_found() {
    assert_eq!(
        resolve_url_range("abc", "abcd", Span { start: 0, end: 3 }),
        Err(EditError::UrlNotFound)
    );
}

#[test]
fn ranges_give_way_to_their_replacements() {
    let text = "![a](1.png) and ![b](2.png)";
    let ranges = vec![Span { start: 5, end: 10 }, Span { start: 21, end: 26 }];
    let replacements = vec![String::from("X"), String::from("Y")];
    assert_eq!(splice(text, &ranges, &replacements), "![a](X) and ![b](Y)");
}

#[test]
fn without_ranges_the_text_is_copied() {
    assert_eq!(splice("just text", &Vec::new(), &Vec::new()), "just text");
}

#[test]
fn adjoining_and_empty_ranges_are_replaced_one_by_one() {
    let text = "abcdef";
    let ranges = vec![
        Span { start: 0, end: 2 },
        Span { start: 2, end: 2 },
        Span { start: 2, end: 6 },
    ];
    let replacements = vec![String::from("1"), String::from("-"), String::from("")];
    let out = splice(text, &ranges, &replacements);
    assert_eq!(out, "1-");
    assert_eq!(out.len(), text.len() - (2 + 0 + 4) + (1 + 1 + 0));
}

#[test]
fn replacement_may_be_longer_than_the_range() {
    let text = "a[b]c";
    let ranges = vec![Span { start: 2, end: 3 }];
    let replacements = vec![String::from("a much longer text")];
    assert_eq!(splice(text, &ranges, &replacements), "a[a much longer text]c");
}

fn image(alt: &str, url: &str, start: usize, end: usize) -> ImageReference {
    ImageReference {
        alt_text: alt.to_string(),
        decoded_url: url.to_string(),
        enclosing_span: Span { start, end },
    }
}

fn keep_url(_alt: String, url: String) -> Option<String> {
    Some(url)
}

#[test]
fn given_images_are_resolved_in_their_spans() {
    let text = String::from("u.png ![a](u.png) ![b](u.png)");
    let images = vec![image("a", "u.png", 6, 17), image("b", "u.png", 18, 29)];
    let editor = MarkdownImgUrlEditor::with_images(text, &images, keep_url).unwrap();
    assert_eq!(
        editor.url_ranges(),
        &vec![Span { start: 11, end: 16 }, Span { start: 23, end: 28 }]
    );
    let out = editor.replace(|_generator: &String| Some(String::from("v"))).unwrap();
    assert_eq!(out, "u.png ![a](v) ![b](v)");
}

#[test]
fn second_range_that_starts_inside_the_first_is_an_overlap() {
    let text = String::from("![a](abc.png)");
    let images = vec![image("a", "abc.png", 0, 13), image("b", "c.png", 0, 13)];
    let calls = std::cell::Cell::new(0);
    let result = MarkdownImgUrlEditor::with_images(text, &images, |_alt: String, url: String| {
        calls.set(calls.get() + 1);
        Some(url)
    });
    assert_eq!(result.err(), Some(EditError::OverlapDetected));
    assert_eq!(calls.get(), 2);
}

#[test]
fn range_that_starts_where_the_last_one_ends_is_no_overlap() {
    let text = String::from("abcd");
    let images = vec![image("", "ab", 0, 4), image("", "cd", 0, 4)];
    let editor = MarkdownImgUrlEditor::with_images(text, &images, keep_url).unwrap();
    assert_eq!(
        editor.url_ranges(),
        &vec![Span { start: 0, end: 2 }, Span { start: 2, end: 4 }]
    );
}

#[test]
fn url_not_found_comes_before_the_mapper_is_asked() {
    let text = String::from("![a](1.png)");
    let images = vec![image("a", "2.png", 0, 11)];
    let calls = std::cell::Cell::new(0);
    let result = MarkdownImgUrlEditor::with_images(text, &images, |_alt: String, _url: String| {
        calls.set(calls.get() + 1);
        None::<String>
    });
    assert_eq!(result.err(), Some(EditError::UrlNotFound));
    assert_eq!(calls.get(), 0);
}

#[test]
fn invalid_mapper_comes_before_the_overlap() {
    let text = String::from("![a](abc.png)");
    let images = vec![image("a", "abc.png", 0, 13), image("b", "c.png", 0, 13)];
    let result = MarkdownImgUrlEditor::with_images(text, &images, |alt: String, url: String| {
        if alt == "b" {
            None
        } else {
            Some(url)
        }
    });
    assert_eq!(result.err(), Some(EditError::InvalidMapper));
}

#[test]
fn url_inside_a_character_is_not_found() {
    let text = "é";
    let bytes = text.as_bytes();
    assert_eq!(bytes.len(), 2);
    assert_eq!(
        resolve_url_range(text, "", Span { start: 1, end: 1 }),
        Err(EditError::UrlNotFound)
    );
    assert_eq!(
        resolve_url_range(text, "", Span { start: 0, end: 2 }),
        Ok(Span { start: 2, end: 2 })
    );
    assert_eq!(
        resolve_url_range(text, "", Span { start: 0, end: 1 }),
        Ok(Span { start: 0, end: 0 })
    );
}
