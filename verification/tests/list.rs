use codize::Block;
use codize::Code;
use codize::FormatCode;
use codize::List;

fn line(s: &str) -> Code {
    Code::Line(s.to_string())
}

#[test]
fn list_empty() {
    let code = List::empty(",");
    assert_eq!("", code.format());
}

#[test]
fn list_one() {
    let code = List::new(",", vec![line("hello")]);
    assert_eq!("hello", code.format());
}

#[test]
fn one_trail() {
    let code = List::new(",", vec![line("hello")]).always_trail();
    assert_eq!("hello,", code.format());
}

#[test]
fn many() {
    let code = List::new(",", vec![line("hello"), line("hello2")]);
    assert_eq!("hello,\nhello2,", code.format());
}

#[test]
fn many_no_trail() {
    let code = List::new(",", vec![line("hello"), line("hello2")]).no_trail();
    assert_eq!("hello,\nhello2", code.format());
}

/// The single-line blocks carry an inline condition that asks whether their
/// first body line is one character long.
fn first_line_is_short(s: &str) -> bool {
    s.len() == 1
}

#[test]
fn with_blocks() {
    // the first block is inline, so next block cannot be connected
    let expected = "{ a },\n{\n    hello,\n    hello2\n}, {\n    foo,\n    bar,\n},\n{ b },\n{ c },";

    let expected_inline =
        "{ a }, {\n    hello,\n    hello2\n}, {\n    foo,\n    bar,\n}, { b }, { c },";

    let code = List::new(
        ",",
        vec![
            Code::Block(Box::new(
                Block::new("{", vec![line("a")], "}").inline_when(first_line_is_short("a")),
            )),
            Code::Block(Box::new(Block::new(
                "{",
                vec![Code::List(List::new(",", vec![line("hello"), line("hello2")]).no_trail())],
                "}",
            ))),
            Code::Block(Box::new(Block::new(
                "{",
                vec![Code::List(List::new(",", vec![line("foo"), line("bar")]))],
                "}",
            ))),
            Code::Block(Box::new(
                Block::new("{", vec![line("b")], "}").inline_when(first_line_is_short("b")),
            )),
            Code::Block(Box::new(
                Block::new("{", vec![line("c")], "}").inline_when(first_line_is_short("c")),
            )),
        ],
    );
    assert_eq!(expected, code.format());
    assert_eq!(expected_inline, code.inline_when(true).format());
}

#[test]
fn multiple_levels() {
    let expected = "a, b, c,\nd, e, f,\nx, y, z,";
    let code = List::new(
        ",",
        vec![
            Code::List(List::new(",", vec![line("a"), line("b"), line("c")]).inline_when(true)),
            Code::List(List::new(",", vec![line("d"), line("e"), line("f")]).inline_when(true)),
            Code::List(List::new(",", vec![line("x"), line("y"), line("z")]).inline_when(true)),
        ],
    );
    assert!(!code.should_inline());
    assert_eq!(expected, code.format());
}
