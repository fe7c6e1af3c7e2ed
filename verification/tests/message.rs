use libgitdit::commit::Commit;
use libgitdit::error::Kind;
use libgitdit::message::block::{Block, Blocks, Trailers};
use libgitdit::message::line::{Line, Lines};
use libgitdit::message::line_processor::{
    Quoted, StripWhiteSpaceLeftIter, StripWhiteSpaceRightIter, TrailingBlankTrimmer,
    WithoutCommentsIter,
};
use libgitdit::message::{lines_of, reply_subject_for, LineIteratorExt, Message};
use libgitdit::oid::ObjectId;
use libgitdit::trailer::{Trailer, TrailerKey, TrailerValue};

fn lines(text: Vec<&str>) -> Vec<String> {
    text.into_iter().map(String::from).collect()
}

fn commit_with(message: Option<&str>, summary: Option<&str>) -> Commit {
    Commit {
        id: ObjectId::from_bytes([7u8; 20]),
        parents: Vec::new(),
        author_name: Some("Foo Bar".to_string()),
        author_email: Some("foo.bar@example.com".to_string()),
        summary: summary.map(String::from),
        message: message.map(String::from),
    }
}

// Blocks

#[test]
fn block_trailers() {
    let mut blocks = Blocks::from(lines(vec![
        "Foo-bar: bar",
        "",
        "Space: the final frontier.",
        "These are the voyages...",
        "",
        "And then he",
        "said: engage!",
        "",
        "And now",
        "for something completely different.",
        "",
        "",
        "Signed-off-by: Spock",
        "Dit-status: closed",
        "Multi-line-trailer: multi",
        "  line",
        "  content",
    ]));

    match blocks.next().expect("Failed to retrieve block 1") {
        Block::Trailer(trailers) => {
            let mut iter = trailers.iter();

            let trailer = iter.next().expect("Failed to parse trailer 1");
            assert_eq!(trailer.key, TrailerKey::from("Foo-bar".to_string()));
            assert!(iter.next().is_none());
        }
        _ => panic!("Wrong type for block 1"),
    }

    match blocks.next().expect("Failed to retrieve block 2") {
        Block::Text(lines) => assert_eq!(
            lines,
            vec!["Space: the final frontier.", "These are the voyages..."]
        ),
        _ => panic!("Wrong type for block 2"),
    }

    match blocks.next().expect("Failed to retrieve block 3") {
        Block::Text(lines) => assert_eq!(lines, vec!["And then he", "said: engage!",]),
        _ => panic!("Wrong type for block 3"),
    }

    match blocks.next().expect("Failed to retrieve block 4") {
        Block::Text(lines) => assert_eq!(
            lines,
            vec!["And now", "for something completely different.",]
        ),
        _ => panic!("Wrong type for block 4"),
    }

    match blocks.next().expect("Failed to retrieve block 5") {
        Block::Trailer(trailers) => {
            let mut iter = trailers.iter();

            {
                let trailer = iter.next().expect("Failed to parse trailer 2");
                assert_eq!(trailer.key, TrailerKey::from("Signed-off-by".to_string()));
            }

            {
                let trailer = iter.next().expect("Failed to parse trailer 3");
                assert_eq!(trailer.key, TrailerKey::from("Dit-status".to_string()));
            }

            {
                let trailer = iter.next().expect("Failed to parse trailer 4");
                assert_eq!(trailer.key, TrailerKey::from("Multi-line-trailer".to_string()));
                assert_eq!(
                    trailer.value,
                    TrailerValue::String("multi  line  content".to_string())
                );
            }

            assert!(iter.next().is_none());
        }
        _ => panic!("Wrong type for block 5"),
    }

    assert!(!blocks.next().is_some())
}

#[test]
fn trailers_iter() {
    let mut trailers = Trailers::from(lines(vec![
        "Foo-bar: bar",
        "",
        "Space: the final frontier.",
        "These are the voyages...",
        "",
        "And then he",
        "said: engage!",
        "",
        "",
        "Signed-off-by: Spock",
        "Dit-status: closed",
        "Multi-line-trailer: multi",
        "  line",
        "  content",
    ]));

    {
        let (key, _) = trailers.next().expect("Failed to parse trailer1").into();
        assert_eq!(key, "Foo-bar".to_string().into());
    }

    {
        let (key, _) = trailers.next().expect("Failed to parse trailer2").into();
        assert_eq!(key, "Signed-off-by".to_string().into());
    }

    {
        let (key, _) = trailers.next().expect("Failed to parse trailer3").into();
        assert_eq!(key, "Dit-status".to_string().into());
    }

    {
        let (key, value) = trailers.next().expect("Failed to parse trailer4").into();
        assert_eq!(key, "Multi-line-trailer".to_string().into());
        assert_eq!(value, TrailerValue::String("multi  line  content".to_string()));
    }

    assert!(!trailers.next().is_some())
}

#[test]
fn blocks_of_a_body() {
    let mut blocks = Blocks::from(lines(vec![
        "Foo-bar: bar",
        "",
        "Space: the final frontier.",
        "These are the voyages...",
        "",
        "Signed-off-by: Spock",
        "Multi-line-trailer: multi",
        "  line",
        "  content",
    ]));
    match blocks.next().unwrap() {
        Block::Trailer(trailers) => assert_eq!(trailers, vec![Trailer::new("Foo-bar", "bar")]),
        _ => panic!("the first block holds a trailer"),
    }
    match blocks.next().unwrap() {
        Block::Text(text) => assert_eq!(
            text,
            vec!["Space: the final frontier.", "These are the voyages..."]
        ),
        _ => panic!("the second block is text"),
    }
    match blocks.next().unwrap() {
        Block::Trailer(trailers) => assert_eq!(
            trailers,
            vec![
                Trailer::new("Signed-off-by", "Spock"),
                Trailer {
                    key: TrailerKey("Multi-line-trailer".to_string()),
                    value: TrailerValue::String("multi  line  content".to_string()),
                },
            ]
        ),
        _ => panic!("the third block holds trailers"),
    }
    assert!(blocks.next().is_none());
    assert!(blocks.next().is_none());
}

#[test]
fn one_line_of_text_makes_the_block_text() {
    let mut blocks = Blocks::from(lines(vec![
        "Key: value",
        "not a trailer",
        "Other: value",
        "",
        "  indented first",
        "Key: value",
        "",
        "Key: value  ",
        " continued",
        "   ",
        "",
        "Number: 1",
        " 2",
    ]));
    match blocks.next().unwrap() {
        Block::Text(text) => assert_eq!(text, vec!["Key: value", "not a trailer", "Other: value"]),
        _ => panic!("a line of text makes the block text"),
    }
    match blocks.next().unwrap() {
        Block::Text(text) => assert_eq!(text, vec!["  indented first", "Key: value"]),
        _ => panic!("nothing to continue makes the block text"),
    }
    match blocks.next().unwrap() {
        Block::Trailer(trailers) => assert_eq!(
            trailers,
            vec![Trailer {
                key: TrailerKey("Key".to_string()),
                value: TrailerValue::String("value continued".to_string()),
            }]
        ),
        _ => panic!("a continued trailer is a trailer"),
    }
    match blocks.next().unwrap() {
        Block::Trailer(trailers) => assert_eq!(
            trailers,
            vec![Trailer {
                key: TrailerKey("Number".to_string()),
                value: TrailerValue::String("1 2".to_string()),
            }]
        ),
        _ => panic!("a continued number is text"),
    }
    assert!(blocks.next().is_none());
}

#[test]
fn no_blocks_in_blank_lines() {
    assert!(Blocks::from(lines(vec![])).next().is_none());
    assert!(Blocks::from(lines(vec!["", "  ", "\t", ""])).next().is_none());
}

// Lines

#[test]
fn text_line() {
    match Line::from("Just a line of text") {
        Line::Text(_) => (),
        _ => panic!("Line of text misinterpreted"),
    }
}

#[test]
fn trailer_line() {
    match Line::from("Foo-bar: baz") {
        Line::Trailer(_) => (),
        _ => panic!("Trailer misinterpreted"),
    }
}

#[test]
fn blank_line() {
    match Line::from("") {
        Line::Blank => (),
        _ => panic!("Blank line misinterpreted"),
    }
}

#[test]
fn lines_test() {
    let mut lines = Lines::from(lines(vec![
        "Mary had a little lamb",
        "Foo-bar: baz",
        "More text",
        "",
        "Multi: line",
        "  trailer",
    ]));

    match lines.next() {
        Some(Line::Text(_)) => (),
        Some(_) => panic!("Expected line of text"),
        None => panic!("premature end of input"),
    }

    match lines.next() {
        Some(Line::Trailer(_)) => (),
        Some(_) => panic!("Expected trailer"),
        None => panic!("premature end of input"),
    }

    match lines.next() {
        Some(Line::Text(_)) => (),
        Some(_) => panic!("Expected line of text"),
        None => panic!("premature end of input"),
    }

    match lines.next() {
        Some(Line::Blank) => (),
        Some(_) => panic!("Expected blank line"),
        None => panic!("premature end of input"),
    }

    match lines.next() {
        Some(Line::Trailer(_)) => (),
        Some(_) => panic!("Expected trailer"),
        None => panic!("premature end of input"),
    }

    match lines.next() {
        None => (),
        Some(_) => panic!("Expected end of input"),
    }
}

#[test]
fn lines_keep_what_they_read() {
    match Line::from("Just a line of text  \t") {
        Line::Text(text) => assert_eq!(text, "Just a line of text"),
        _ => panic!("expected text"),
    }
    match Line::from("   ") {
        Line::Blank => (),
        _ => panic!("expected a blank line"),
    }
    match Line::from("Foo-bar: 12  ") {
        Line::Trailer(trailer) => assert_eq!(trailer, Trailer::new("Foo-bar", "12")),
        _ => panic!("expected a trailer"),
    }
    let mut categorized = Lines::from(lines(vec!["Multi: 1", " 2", " 3 ", "text", " indented"]));
    match categorized.next() {
        Some(Line::Trailer(trailer)) => assert_eq!(
            trailer,
            Trailer {
                key: TrailerKey("Multi".to_string()),
                value: TrailerValue::String("1 2 3 ".to_string()),
            }
        ),
        _ => panic!("expected a trailer over three lines"),
    }
    match categorized.next() {
        Some(Line::Text(text)) => assert_eq!(text, "text"),
        _ => panic!("expected text"),
    }
    match categorized.next() {
        Some(Line::Text(text)) => assert_eq!(text, " indented"),
        _ => panic!("expected text"),
    }
    assert!(categorized.next().is_none());
}

// Line processors

#[test]
fn quoted_lines() {
    let mut lines = Quoted::from(lines(vec!["foo", "bar", "", "baz"]));
    assert_eq!(lines.next().expect("Premature end of input"), "> foo");
    assert_eq!(lines.next().expect("Premature end of input"), "> bar");
    assert_eq!(lines.next().expect("Premature end of input"), ">");
    assert_eq!(lines.next().expect("Premature end of input"), "> baz");
    assert!(!lines.next().is_some());
}

#[test]
fn left_stripped_lines() {
    let mut lines = StripWhiteSpaceLeftIter::from(lines(vec!["foo  ", "  bar", "  ", ""]));
    assert_eq!(lines.next().expect("Premature end of input"), "foo  ");
    assert_eq!(lines.next().expect("Premature end of input"), "bar");
    assert_eq!(lines.next().expect("Premature end of input"), "");
    assert_eq!(lines.next().expect("Premature end of input"), "");
    assert!(!lines.next().is_some());
}

#[test]
fn right_stripped_lines() {
    let mut lines = StripWhiteSpaceRightIter::from(lines(vec!["foo  ", "  bar", "  ", ""]));
    assert_eq!(lines.next().expect("Premature end of input"), "foo");
    assert_eq!(lines.next().expect("Premature end of input"), "  bar");
    assert_eq!(lines.next().expect("Premature end of input"), "");
    assert_eq!(lines.next().expect("Premature end of input"), "");
    assert!(!lines.next().is_some());
}

#[test]
fn lines_without_comments() {
    let mut lines = WithoutCommentsIter::from(lines(vec!["foo", "# bar", "#", ""]));
    assert_eq!(lines.next().expect("Premature end of input"), "foo");
    assert_eq!(lines.next().expect("Premature end of input"), "");
    assert!(!lines.next().is_some());
}

#[test]
fn trailing_blank_trimmer() {
    let mut lines =
        TrailingBlankTrimmer::from(lines(vec!["", "foo", "bar", "", "baz", "", ""]));
    assert_eq!(lines.next().expect("Premature end of input"), "");
    assert_eq!(lines.next().expect("Premature end of input"), "foo");
    assert_eq!(lines.next().expect("Premature end of input"), "bar");
    assert_eq!(lines.next().expect("Premature end of input"), "");
    assert_eq!(lines.next().expect("Premature end of input"), "baz");
    assert!(!lines.next().is_some());
}

#[test]
fn processors_hand_out_all_at_once() {
    assert_eq!(
        Quoted::from(lines(vec!["a", "", " b"])).collect(),
        vec!["> a", ">", ">  b"]
    );
    assert_eq!(
        StripWhiteSpaceLeftIter::from(lines(vec![" a ", "\u{3000}b"])).collect(),
        vec!["a ", "b"]
    );
    assert_eq!(
        StripWhiteSpaceRightIter::from(lines(vec![" a \t", "b\u{2003}"])).collect(),
        vec![" a", "b"]
    );
    assert_eq!(
        WithoutCommentsIter::from(lines(vec!["#", "a", " # kept", "#b", "c"])).collect(),
        vec!["a", " # kept", "c"]
    );
    assert_eq!(
        TrailingBlankTrimmer::from(lines(vec!["", "", "a", "", "", "b", ""])).collect(),
        vec!["", "", "a", "", "", "b"]
    );
    assert!(TrailingBlankTrimmer::from(lines(vec!["", "", ""])).collect().is_empty());
    assert!(TrailingBlankTrimmer::from(lines(vec![])).collect().is_empty());
    assert_eq!(
        TrailingBlankTrimmer::from(lines(vec![" ", ""])).collect(),
        vec![" "]
    );
}

#[test]
fn stripping_agrees_with_the_standard_library() {
    for text in [
        "", " ", "a", " a", "a ", "  a  b  ", "\ta\n", "\u{a0}a\u{a0}", "\u{1680}x\u{2000}",
        "\u{200a}y\u{2028}\u{2029}", "\u{202f}z\u{205f}\u{3000}", "\u{85}w\u{b}\u{c}\r",
        "\u{200b}zero width\u{200b}", "\u{feff}bom", "\u{1c}sep\u{1f}",
    ] {
        let left = StripWhiteSpaceLeftIter::from(lines(vec![text])).next().unwrap();
        let right = StripWhiteSpaceRightIter::from(lines(vec![text])).next().unwrap();
        assert_eq!(left, text.trim_start(), "for {:?}", text);
        assert_eq!(right, text.trim_end(), "for {:?}", text);
    }
}

// The form of a message

#[test]
fn empty_message_format_check() {
    let vec: Vec<String> = Vec::new();
    assert!(vec.check_message_format().is_err());
}

#[test]
fn empty_message_format_check2() {
    assert!(lines(vec![""]).check_message_format().is_err());
}

#[test]
fn oneline_message_format_check() {
    lines(vec!["Foo bar"]).check_message_format().unwrap();
}

#[test]
fn malformed_message_format_check() {
    assert!(lines(vec!["Foo bar", "Baz"]).check_message_format().is_err());
}

#[test]
fn multiline_message_format_check() {
    lines(vec!["Foo bar", "", "Baz"]).check_message_format().unwrap();
}

#[test]
fn each_fault_has_its_error() {
    assert_eq!(lines(vec![]).check_message_format(), Err(Kind::EmptyMessage));
    assert_eq!(lines(vec!["", "", "x"]).check_message_format(), Err(Kind::EmptySubject));
    assert_eq!(
        lines(vec!["Subject", " "]).check_message_format(),
        Err(Kind::MalformedMessage)
    );
    assert_eq!(lines(vec!["Subject", ""]).check_message_format(), Ok(()));
    assert_eq!(lines(vec!["Subject", "", "", "x"]).check_message_format(), Ok(()));
}

#[test]
fn lines_that_are_stored() {
    let stored = lines(vec!["Subject  ", "# a comment", "", "  code  ", "#", " # no comment "])
        .stripped()
        .collect();
    assert_eq!(stored, vec!["Subject", "", "  code", " # no comment"]);
    assert_eq!(lines(vec!["a", "", "b"]).quoted().collect(), vec!["> a", ">", "> b"]);
    assert_eq!(lines(vec!["a", "", "b"]).collect_string(), "a\n\nb\n");
    assert_eq!(lines(vec![]).collect_string(), "");
    assert!(lines(vec!["Key: value"]).line_blocks().next().is_some());
    assert_eq!(
        lines(vec!["Key: value"]).trailers().next().unwrap(),
        Trailer::new("Key", "value")
    );
}

// Commits as messages

#[test]
fn lines_of_a_text() {
    for text in [
        "", "\n", "a", "a\n", "a\nb", "a\n\nb\n", "a\r\nb\r\n", "a\rb", "a\r", "a\r\n\r",
        "\r\n", "\r", "\n\n", "a\n\r\nb", "a\r\r\nb", "trailing \n",
    ] {
        let expected: Vec<String> = text.lines().map(String::from).collect();
        assert_eq!(lines_of(text), expected, "for {:?}", text);
    }
}

#[test]
fn message_and_body() {
    let commit = commit_with(
        Some("Subject\n\nFirst paragraph\nmore of it\n\nDit-status: closed\n"),
        Some("Subject"),
    );
    assert_eq!(
        commit.message_lines(),
        vec!["Subject", "", "First paragraph", "more of it", "", "Dit-status: closed"]
    );
    assert_eq!(
        commit.body_lines(),
        vec!["First paragraph", "more of it", "", "Dit-status: closed"]
    );
    let mut blocks = commit.body_blocks();
    assert!(matches!(blocks.next(), Some(Block::Text(_))));
    assert!(matches!(blocks.next(), Some(Block::Trailer(_))));
    assert!(blocks.next().is_none());
    assert_eq!(
        commit.trailers().collect(),
        vec![Trailer::new("Dit-status", "closed")]
    );

    let bare = commit_with(None, None);
    assert!(bare.message_lines().is_empty());
    assert!(bare.body_lines().is_empty());
    assert!(bare.trailers().next().is_none());
    assert_eq!(bare.reply_subject(), None);

    let short = commit_with(Some("Only: a subject"), Some("Only: a subject"));
    assert!(short.body_lines().is_empty());
    assert!(short.trailers().next().is_none());
}

#[test]
fn subject_of_a_reply() {
    assert_eq!(reply_subject_for("Test message 1"), "Re: Test message 1");
    assert_eq!(reply_subject_for("Re: Test message 1"), "Re: Test message 1");
    assert_eq!(reply_subject_for(&reply_subject_for("x")), reply_subject_for("x"));
    assert_eq!(reply_subject_for("Re:x"), "Re: Re:x");
    assert_eq!(reply_subject_for("re: x"), "Re: re: x");
    assert_eq!(reply_subject_for(""), "Re: ");
    assert_eq!(reply_subject_for("Re: "), "Re: ");
    assert_eq!(
        commit_with(Some("Hello\n"), Some("Hello")).reply_subject(),
        Some("Re: Hello".to_string())
    );
}

#[test]
fn any_white_space_indents_a_continuation() {
    let mut blocks = Blocks::from(lines(vec![
        "Foo: bar",
        "\tbaz",
        "",
        "Key: 1",
        "\u{a0}2",
        "\u{3000}3  ",
        "Other: x",
        "",
        "\tindented first",
        "Key: value",
    ]));
    match blocks.next().unwrap() {
        Block::Trailer(trailers) => assert_eq!(
            trailers,
            vec![Trailer {
                key: TrailerKey("Foo".to_string()),
                value: TrailerValue::String("bar\tbaz".to_string()),
            }]
        ),
        _ => panic!("a line behind a tab continues the trailer"),
    }
    match blocks.next().unwrap() {
        Block::Trailer(trailers) => assert_eq!(
            trailers,
            vec![
                Trailer {
                    key: TrailerKey("Key".to_string()),
                    value: TrailerValue::String("1\u{a0}2\u{3000}3".to_string()),
                },
                Trailer::new("Other", "x"),
            ]
        ),
        _ => panic!("any white space indents"),
    }
    match blocks.next().unwrap() {
        Block::Text(text) => assert_eq!(text, vec!["\tindented first", "Key: value"]),
        _ => panic!("nothing to continue makes the block text"),
    }
    assert!(blocks.next().is_none());

    let mut categorized = Lines::from(lines(vec![
        "Foo: bar",
        "\tbaz",
        "\u{2003}more ",
        "text",
        "\tindented text",
        "Last: 1",
        "\r",
    ]));
    match categorized.next() {
        Some(Line::Trailer(trailer)) => assert_eq!(
            trailer,
            Trailer {
                key: TrailerKey("Foo".to_string()),
                value: TrailerValue::String("bar\tbaz\u{2003}more ".to_string()),
            }
        ),
        _ => panic!("expected a trailer over three lines"),
    }
    match categorized.next() {
        Some(Line::Text(text)) => assert_eq!(text, "text"),
        _ => panic!("expected text"),
    }
    match categorized.next() {
        Some(Line::Text(text)) => assert_eq!(text, "\tindented text"),
        _ => panic!("expected text"),
    }
    match categorized.next() {
        Some(Line::Trailer(trailer)) => assert_eq!(
            trailer,
            Trailer {
                key: TrailerKey("Last".to_string()),
                value: TrailerValue::String("1\r".to_string()),
            }
        ),
        _ => panic!("expected a trailer"),
    }
    assert!(categorized.next().is_none());
}
