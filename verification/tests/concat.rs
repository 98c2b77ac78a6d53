use codize::Block;
use codize::Code;
use codize::Concat;

fn line(s: &str) -> Code {
    Code::Line(s.to_string())
}

#[test]
fn concat_empty() {
    let code = Concat::new(Vec::new());
    assert_eq!(code, Concat::empty());
}

#[test]
fn concat_one() {
    let code = Concat::new(vec![line("Hello, World!")]);
    assert_eq!(code, Concat::new(vec![line("Hello, World!")]));
}

#[test]
fn mixed() {
    let code = Concat::new(vec![
        line("Hello, World!"),
        Code::Block(Box::new(Block::new("if (x) {", vec![line("y();")], "}"))),
        line(""),
        Code::Block(Box::new(Block::new("if (x2) {", vec![line("y2();")], "}"))),
    ]);
    assert_eq!(
        code,
        Concat::new(vec![
            Code::Line("Hello, World!".to_string()),
            Code::Block(Box::new(Block::new("if (x) {", vec![line("y();")], "}"))),
            Code::Line("".to_string()),
            Code::Block(Box::new(Block::new("if (x2) {", vec![line("y2();")], "}"))),
        ])
    );
}
