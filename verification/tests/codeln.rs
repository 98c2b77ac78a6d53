use codize::Code;
use codize::FormatCode;

#[test]
fn codeln_empty() {
    let code = Code::Line(String::new());
    assert_eq!("", code.format());
}

#[test]
fn literal() {
    let code = Code::Line("hello world".to_string());
    assert_eq!("hello world", code.format());
}

#[test]
fn format_one() {
    let code = Code::Line(format!("hello {}", 1));
    assert_eq!("hello 1", code.format());
}

#[test]
fn format_three() {
    let test = "world";
    let code = Code::Line(format!("hello {} {} {} {test}", 1, 2, 3));
    assert_eq!("hello 1 2 3 world", code.format());
}
