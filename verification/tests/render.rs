use codize::Block;
use codize::Code;
use codize::Format;
use codize::FormatCode;
use codize::List;

fn line(s: &str) -> Code {
    Code::Line(s.to_string())
}

#[test]
fn test1() {
    let code = Code::Block(Box::new(Block::empty("{", "}")));
    assert_eq!("{\n}", code.format());
}

#[test]
fn test2() {
    let code = Code::Block(Box::new(Block::new("trait A {", vec![line("fn a();")], "}")));
    let expected = "trait A {\n   fn a();\n}";
    assert_eq!(expected, code.format_with(&Format::indent(3)));
    let expected = "trait A {\n\tfn a();\n}";
    assert_eq!(expected, code.format_with(&Format::indent_tab()));
}

#[test]
fn test3() {
    let code = Code::Block(Box::new(Block::new(
        "fn main() {",
        vec![
            Code::Block(Box::new(Block::new(
                "if (foo) {",
                vec![line("println!(\"Hello, world!\");")],
                "}",
            ))),
            Code::Block(Box::new(
                Block::new("else {", vec![Code::Line(format!("bar({});", "giz"))], "}").connected(),
            )),
        ],
        "}",
    )));
    let expected = "fn main() {\n    if (foo) {\n        println!(\"Hello, world!\");\n    } else {\n        bar(giz);\n    }\n}";
    assert_eq!(expected, code.format());
}

/// The blocks' inline condition: `None` keeps the intrinsic rule, `Some`
/// forces the decision; the lists' condition asks whether the item count is
/// the given one.
fn test_case_4(block_inline: Option<bool>, list_inline_of_len: fn(usize) -> bool) -> Code {
    let list_a = List::new(",", vec![line("1"), line("2"), line("3")]).inline_when(
        list_inline_of_len(3),
    );
    let block_a = Block::new("let b = {", vec![Code::List(list_a)], "};");
    let block_a = match block_inline {
        Some(v) => block_a.inline_when(v),
        None => block_a,
    };
    let list_b = List::new(",", vec![line("1"), line("2"), line("3"), line("4")]).inline_when(
        list_inline_of_len(4),
    );
    let block_b = Block::new("let b = {", vec![Code::List(list_b)], "};");
    let block_b = match block_inline {
        Some(v) => block_b.inline_when(v),
        None => block_b,
    };
    let body = vec![
        line("let x = 1;"),
        Code::Block(Box::new(block_a)),
        Code::Block(Box::new(block_b)),
    ];
    Code::Block(Box::new(Block::new("while true {", body, "}")))
}

#[test]
fn test4() {
    fn should_inline_list(len: usize) -> bool {
        len == 3
    }
    let code = test_case_4(None, should_inline_list);
    let expected = "while true {\n    let x = 1;\n    let b = { 1, 2, 3 };\n    let b = {\n        1,\n        2,\n        3,\n        4,\n    };\n}";
    assert_eq!(expected, code.format());

    let code = test_case_4(None, |_| true);
    let expected =
        "while true {\n    let x = 1;\n    let b = { 1, 2, 3 };\n    let b = { 1, 2, 3, 4 };\n}";
    assert_eq!(expected, code.format());

    let code = test_case_4(Some(false), |_| true);
    let expected = "while true {\n    let x = 1;\n    let b = {\n        1, 2, 3\n    };\n    let b = {\n        1, 2, 3, 4\n    };\n}";
    assert_eq!(expected, code.format());
}
