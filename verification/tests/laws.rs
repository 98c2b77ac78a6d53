use codize::Block;
use codize::Code;
use codize::Concat;
use codize::Format;
use codize::FormatCode;
use codize::List;

fn line(s: &str) -> Code {
    Code::Line(s.to_string())
}

fn scenario_tree() -> Code {
    Code::Block(Box::new(Block::new(
        "fn main() {",
        vec![
            line("foo();"),
            Code::List(List::new(",", vec![line("1"), line("2")])),
        ],
        "}",
    )))
}

#[test]
fn deterministic_render() {
    let code = scenario_tree();
    let fmt = Format::indent(2);
    assert_eq!(code.format_with(&fmt), code.format_with(&fmt));
    assert_eq!(code.format_vec_with(&fmt), code.format_vec_with(&fmt));
    assert_eq!(code.format(), code.format());
}

#[test]
fn empty_concat_renders_nothing() {
    let code = Concat::empty();
    assert_eq!(0, code.format_vec_with(&Format::default()).len());
    assert_eq!("", code.format());
}

#[test]
fn empty_list_renders_nothing() {
    let code = List::empty(",");
    assert_eq!(0, code.format_vec_with(&Format::default()).len());
    // even a trailing separator has no line to land on
    let code = List::empty(",").always_trail();
    assert_eq!("", code.format());
}

#[test]
fn empty_block_renders_two_lines() {
    let code = Block::empty("begin", "end");
    let lines = code.format_vec_with(&Format::default());
    assert_eq!(vec!["begin".to_string(), "end".to_string()], lines);
}

fn single_child_block() -> Block {
    Block::new(
        "call(",
        vec![Code::List(
            List::new(",", vec![line("x"), line("y")]).inline_when(true),
        )],
        ")",
    )
}

#[test]
fn inline_idempotence() {
    // the body is a single child that itself inlines, so the intrinsic rule
    // already inlines the block: forcing it changes nothing
    let intrinsic = single_child_block();
    let forced = single_child_block().inlined();
    assert_eq!("call( x, y )", intrinsic.format());
    assert_eq!(intrinsic.format(), forced.format());
}

#[test]
fn trailing_law_multiline() {
    // a multi-line list: IfMultiLine (the default) agrees with Always
    let default_trail = List::new(";", vec![line("a"), line("b")]);
    let always_trail = List::new(";", vec![line("a"), line("b")]).always_trail();
    assert_eq!("a;\nb;", default_trail.format());
    assert_eq!(default_trail.format(), always_trail.format());
}

#[test]
fn trailing_law_singleline() {
    // a single-line list: IfMultiLine (the default) agrees with Never
    let default_trail = List::new(";", vec![line("a"), line("b")]).inline_when(true);
    let never_trail = List::new(";", vec![line("a"), line("b")])
        .inline_when(true)
        .no_trail();
    assert_eq!("a; b", default_trail.format());
    assert_eq!(default_trail.format(), never_trail.format());
}

#[test]
fn indentation_monotonicity() {
    // three nested blocks, none inlined: each level adds one indent unit
    let inner = Block::new("two {", vec![line("x")], "}");
    let middle = Block::new("one {", vec![Code::Block(Box::new(inner))], "}");
    let outer = Block::new("zero {", vec![Code::Block(Box::new(middle))], "}");
    let expected = "zero {\n  one {\n    two {\n      x\n    }\n  }\n}";
    assert_eq!(expected, outer.format_with(&Format::indent(2)));
}

#[test]
fn scenario_block_render() {
    let code = Block::new("fn main() {", vec![line("foo();")], "}");
    assert_eq!("fn main() {\n    foo();\n}", code.format_with(&Format::indent(4)));
}

#[test]
fn scenario_connected_block() {
    // the first inner block's end line and the connected block's start line
    // merge into one output line
    let code = Block::new(
        "fn main() {",
        vec![
            Code::Block(Box::new(Block::new("if (a) {", vec![line("b();")], "}"))),
            Code::Block(Box::new(
                Block::new("else {", vec![line("c();")], "}").connected(),
            )),
        ],
        "}",
    );
    let lines = code.format_vec_with(&Format::default());
    assert_eq!(
        vec![
            "fn main() {".to_string(),
            "    if (a) {".to_string(),
            "        b();".to_string(),
            "    } else {".to_string(),
            "        c();".to_string(),
            "    }".to_string(),
            "}".to_string(),
        ],
        lines
    );
}

#[test]
fn scenario_list_inline_and_default() {
    let forced = List::new(",", vec![line("1"), line("2"), line("3")]).inline_when(true);
    assert_eq!("1, 2, 3", forced.format());
    let plain = List::new(",", vec![line("1"), line("2"), line("3")]);
    assert_eq!("1,\n2,\n3,", plain.format());
}

#[test]
fn scenario_list_with_blocks() {
    // the inlined block stays on one line and takes the separator; the
    // multi-line block starts on a fresh line
    let code = List::new(
        ",",
        vec![
            Code::Block(Box::new(Block::new("{", vec![line("a")], "}").inline_when(true))),
            Code::Block(Box::new(Block::new(
                "{",
                vec![Code::List(
                    List::new(",", vec![line("hello"), line("hello2")]).no_trail(),
                )],
                "}",
            ))),
        ],
    );
    assert_eq!("{ a },\n{\n    hello,\n    hello2\n},", code.format());
}

#[test]
fn blank_body_line_keeps_no_indent() {
    // a blank line inside an indented body is emitted with no stray indent
    let code = Block::new("{", vec![line("")], "}");
    let lines = code.format_vec_with(&Format::default());
    assert_eq!(vec!["{".to_string(), "".to_string(), "}".to_string()], lines);
}

#[test]
fn connect_onto_indent_only_line() {
    // a connected start after a blank body line glues onto the bare indent
    // without an extra space
    let code = Block::new(
        "{",
        vec![
            line(""),
            Code::Block(Box::new(Block::empty("x {", "}").connected())),
        ],
        "}",
    );
    let lines = code.format_vec_with(&Format::default());
    assert_eq!(
        vec![
            "{".to_string(),
            "    x {".to_string(),
            "    }".to_string(),
            "}".to_string(),
        ],
        lines
    );
}

#[test]
fn size_hint_bounds_line_count() {
    let block = Block::new("{", vec![line("a")], "}");
    assert_eq!(3, block.size_hint());
    assert_eq!(3, block.format_vec_with(&Format::default()).len());
    // an inlined block over-estimates but never under-estimates
    let inlined = Block::new("{", vec![line("a")], "}").inlined();
    assert_eq!(3, inlined.size_hint());
    assert_eq!(1, inlined.format_vec_with(&Format::default()).len());
    let concat = Concat::new(vec![line("a"), line("b")]);
    assert_eq!(2, concat.size_hint());
    assert_eq!(2, concat.format_vec_with(&Format::default()).len());
}

#[test]
fn terminated_output_ends_with_one_newline() {
    let code = Block::new("fn main() {", vec![line("foo();")], "}");
    assert_eq!(
        "fn main() {\n    foo();\n}\n",
        code.format_terminated(&Format::default())
    );
    // a run of embedded trailing terminators is collapsed to exactly one
    let code = Code::Line("x\n\n".to_string());
    assert_eq!("x\n", code.format_terminated(&Format::default()));
}

#[test]
fn tab_indentation() {
    let code = Block::new(
        "{",
        vec![Code::Block(Box::new(Block::new("{", vec![line("x")], "}")))],
        "}",
    );
    assert_eq!("{\n\t{\n\t\tx\n\t}\n}", code.format_with(&Format::indent_tab()));
}
