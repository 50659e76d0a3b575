use qas::parser::start;
use qas::preprocessor::SourceSet;

fn binary_3() -> i32 {
    0b11
}

fn binary_127() -> i32 {
    0b1111111
}

fn octal_7() -> i32 {
    0o7
}

fn octal_100() -> i32 {
    0o144
}

fn hexadecimal_98() -> i32 {
    0x62
}

fn hexadecimal_answer() -> i32 {
    0x2a
}

fn hexadecimal_answer_uppercase() -> i32 {
    0x2A
}

#[test]
fn notation_main() {
    let src = "int binary_3() { return 0b11; }\nint binary_127() { return 0b1111111; }\nint octal_7() { return 0o7; }\nint octal_100() { return 0o144; }\nint hexadecimal_98() { return 0x62; }\nint hexadecimal_answer() { return 0x2a; }\nint hexadecimal_answer_uppercase() { return 0x2A; }\n";
    let out = start("notation.c", src, &SourceSet::new()).unwrap();
    assert!(out.contains("pub fn binary_3() -> i32 {\n\t0b11\n}"));
    assert!(out.contains("pub fn binary_127() -> i32 {\n\t0b1111111\n}"));
    assert!(out.contains("pub fn octal_7() -> i32 {\n\t0o7\n}"));
    assert!(out.contains("pub fn octal_100() -> i32 {\n\t0o144\n}"));
    assert!(out.contains("pub fn hexadecimal_98() -> i32 {\n\t0x62\n}"));
    assert!(out.contains("pub fn hexadecimal_answer() -> i32 {\n\t0x2a\n}"));
    assert!(out.contains("pub fn hexadecimal_answer_uppercase() -> i32 {\n\t0x2A\n}"));
    assert_eq!(binary_3(), 3);
    assert_eq!(binary_127(), 127);
    assert_eq!(octal_7(), 7);
    assert_eq!(octal_100(), 100);
    assert_eq!(hexadecimal_98(), 98);
    assert_eq!(hexadecimal_answer(), 42);
    assert_eq!(hexadecimal_answer_uppercase(), 42);
}
