use codize::Block;
use codize::Code;
use codize::FormatCode;

fn line(s: &str) -> Code {
    Code::Line(s.to_string())
}

#[test]
fn block_empty() {
    let code = Block::empty("", "");
    // start and end on separate lines
    assert_eq!("\n", code.format());
}

#[test]
fn empty_body() {
    let code = Block::empty("fn main() {", "}");
    assert_eq!("fn main() {\n}", code.format());
}

#[test]
fn different_types() {
    let code = Block::new(
        "fn main() {",
        vec![
            line("foo"),
            Code::Line("bar".to_string()),
            Code::Block(Box::new(Block::new(
                "if (x) {",
                vec![line("baz"), Code::Line("qux".to_string())],
                "}",
            ))),
        ],
        "}",
    );
    let expected = "fn main() {\n    foo\n    bar\n    if (x) {\n        baz\n        qux\n    }\n}";
    assert_eq!(expected, code.format());
}

#[test]
fn iteratable() {
    let body = vec![
        Code::Block(Box::new(Block::new(
            "if (x()) {",
            vec![line("bar();")],
            "}",
        ))),
        Code::Block(Box::new(
            Block::new("else if (y) {", vec![line("baz();")], "}").connected(),
        )),
    ];
    let code = Block::new("fn foo(y: bool) {", body, "}");
    let expected = "fn foo(y: bool) {\n    if (x()) {\n        bar();\n    } else if (y) {\n        baz();\n    }\n}";
    assert_eq!(expected, code.format());
}

fn is_one_thing(body_len: usize) -> bool {
    body_len == 1
}

#[test]
fn inline_condition() {
    let body = vec![
        Code::Block(Box::new(
            Block::new("if (x()) {", vec![line("bar();")], "}").inline_when(is_one_thing(1)),
        )),
        Code::Block(Box::new(
            Block::new("else if (y) {", vec![line("baz();"), line("baz();")], "}")
                .connected()
                .inline_when(is_one_thing(2)),
        )),
    ];
    let code = Block::new("fn foo(y: bool) {", body, "}");
    let expected =
        "fn foo(y: bool) {\n    if (x()) { bar(); } else if (y) {\n        baz();\n        baz();\n    }\n}";
    assert_eq!(expected, code.format());
}
