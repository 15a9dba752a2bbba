use jsite::rst_parser::{parse_images, parse_links, RSTError, RSTImage};

#[test]
fn test_link_parser() {
    let mut input = String::from(
        "This is a paragraph that contains `a link`_.

    .. _a link: https://domain.invalida\n",
    );

    let output = parse_links(&mut input).unwrap();

    assert_eq!(output.trim_end(), "This is a paragraph that contains <a class=\"link\" href=\"https://domain.invalida\">a link</a>.")
}

#[test]
fn test_image_parser() {
    let input = ".. image:: cool/image/123.png
            :width: 60%
            :height: auto
            :alt: this is the alt text
        ";

    let output = parse_images(input).unwrap();

    assert_eq!(output.trim_end(), "<img src=\"cool/image/123.png\" alt=\"this is the alt text\" style=\"height;60%;width:60%;\">")
}

#[test]
fn undefined_reference_gets_empty_href() {
    let output = parse_links("see `missing`_ here\n").unwrap();
    assert_eq!(output, "see <a class=\"link\" href=\"\">missing</a> here\n");
}

#[test]
fn defined_reference_resolves() {
    let output = parse_links("`x`_\n.. _x: y\n").unwrap();
    assert_eq!(output, "<a class=\"link\" href=\"y\">x</a>");
}

#[test]
fn last_definition_wins() {
    let output = parse_links(".. _n: a\n.. _n: b\n`n`_").unwrap();
    assert_eq!(output, "<a class=\"link\" href=\"b\">n</a>");
}

#[test]
fn link_resolution_is_not_idempotent_on_injected_syntax() {
    // A target that itself reuses reference syntax is injected verbatim, so a
    // second pass rewrites it again: single-pass behavior is the contract.
    let first = parse_links("`a`_\n.. _a: `b`_\n").unwrap();
    assert_eq!(first, "<a class=\"link\" href=\"`b`_\">a</a>");
    let second = parse_links(&first).unwrap();
    assert_ne!(second, first);
}

#[test]
fn transforms_are_no_ops_without_markup() {
    let input = "plain text, nothing special\nsecond line\n";
    assert_eq!(parse_links(input).unwrap(), input);
    assert_eq!(parse_images(input).unwrap(), input);
}

#[test]
fn empty_input_stays_empty() {
    assert_eq!(parse_links("").unwrap(), "");
    assert_eq!(parse_images("").unwrap(), "");
}

#[test]
fn definition_without_newline_is_not_a_definition() {
    let input = ".. _a: b";
    assert_eq!(parse_links(input).unwrap(), input);
}

#[test]
fn reference_does_not_span_lines() {
    let input = "`a\nb`_\n";
    assert_eq!(parse_links(input).unwrap(), input);
}

#[test]
fn reference_name_is_maximal_on_its_line() {
    // The name runs to the last closing pair of the line, so two references
    // on one line collapse into a single, longer name.
    let output = parse_links("`a`_ and `b`_\n").unwrap();
    assert_eq!(output, "<a class=\"link\" href=\"\">a`_ and `b</a>\n");
}

#[test]
fn definition_splits_at_last_separator() {
    let output = parse_links(".. _a: b: c\n`a: b`_").unwrap();
    assert_eq!(output, "<a class=\"link\" href=\"c\">a: b</a>");
}

#[test]
fn repeated_field_takes_last_value() {
    let output = parse_images(".. image:: a.png\n:width: 10\n:width: 20\n").unwrap();
    assert_eq!(output, "<img src=\"a.png\" style=\"height;20;width:20;\">");
}

#[test]
fn image_without_fields_has_empty_style() {
    let output = parse_images(".. image:: p\n").unwrap();
    assert_eq!(output, "<img src=\"p\" style=\"\">");
}

#[test]
fn scale_is_accepted_but_dropped() {
    let output = parse_images(".. image:: p\n:scale: 50%\n:alt: hi\n").unwrap();
    assert_eq!(output, "<img src=\"p\" alt=\"hi\" style=\"\">");
}

#[test]
fn align_is_captured_but_not_emitted() {
    let output = parse_images(".. image:: p\n:align: left\n").unwrap();
    assert_eq!(output, "<img src=\"p\" style=\"\">");
}

#[test]
fn scale_without_percent_ends_the_block() {
    let output = parse_images(".. image:: p\n:scale: 50\n").unwrap();
    assert_eq!(output, "<img src=\"p\" style=\"\">:scale: 50\n");
}

#[test]
fn height_mirrors_width_capture() {
    let img = RSTImage::from_captures(
        Some(String::from("f")),
        Some(String::from("auto")),
        Some(String::from("60%")),
        None,
        None,
    )
    .unwrap();
    assert_eq!(img.height, Some(String::from("60%")));
    assert_eq!(img.width, Some(String::from("60%")));
    assert_eq!(img.image_file, String::from("f"));
}

#[test]
fn missing_file_name_is_an_error() {
    let r = RSTImage::from_captures(None, None, None, None, None);
    assert!(matches!(r, Err(RSTError::MissingField("file_name"))));
    let msg = r.unwrap_err().describe();
    assert_eq!(msg, "required element missing: `file_name`");
}

#[test]
fn to_html_renders_all_parts() {
    let img = RSTImage {
        image_file: String::from("x/y.png"),
        height: Some(String::from("7")),
        width: Some(String::from("9")),
        alt: Some(String::from("pic")),
        align: Some(String::from("left")),
    };
    assert_eq!(img.to_html(), "<img src=\"x/y.png\" alt=\"pic\" style=\"height;7;width:9;\">");
}

#[test]
fn image_blocks_do_not_interact() {
    let output = parse_images(".. image:: a\n\n.. image:: b\n:width: 1\n").unwrap();
    assert_eq!(output, "<img src=\"a\" style=\"\">\n<img src=\"b\" style=\"height;1;width:1;\">");
}
