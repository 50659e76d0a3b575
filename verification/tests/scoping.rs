use qas::builtin_ty::BuiltinType;
use qas::err::CError;
use qas::fns::{FnFlags, Function, Tab};
use qas::text::{deparentify, is_surrounded_with_parents, parentify};
use qas::parser::start;
use qas::preprocessor::{preprocess_file, Preproc, SourceSet, NESTING_LIMIT};
use qas::text::{chars_to_str, str_to_chars};

fn run(src: &str) -> String {
    start("unit.c", src, &SourceSet::new()).unwrap()
}

#[test]
fn a_global_typedef_survives_across_functions() {
    let out = run("typedef int t;\nint f(t a) { return a; }\nint g(t a) { return a; }\n");
    assert!(out.contains("type t = i32;"));
    assert!(out.contains("pub fn f(a: i32) -> i32"));
    assert!(out.contains("pub fn g(a: i32) -> i32"));
}

#[test]
fn a_function_local_typedef_is_erased_when_the_body_finishes() {
    let r = start(
        "unit.c",
        "int f() { typedef int t; return 1; }\nt g(t a) { return a; }\n",
        &SourceSet::new(),
    );
    assert!(matches!(r, Err(CError::Syntax)));
    let inside = run("int f(int a) { typedef int t; return a; }\n");
    assert!(inside.contains("type t = i32;"));
}

#[test]
fn an_excluded_branch_still_registers_its_macros() {
    let mut st = Preproc::new("unit.c");
    let src = "#define FOO\n#ifndef FOO\n#define BAR\n#endif\nBAR\n";
    let out = preprocess_file(&mut st, &SourceSet::new(), str_to_chars(src), NESTING_LIMIT)
        .unwrap();
    assert_eq!(chars_to_str(&out), "\n\n\n\n\n");
}

#[test]
fn an_else_branch_is_chosen_when_the_name_is_defined() {
    let mut st = Preproc::new("unit.c");
    let src = "#define FOO\n#ifndef FOO\nfirst\n#else\nsecond\n#endif\n";
    let out = preprocess_file(&mut st, &SourceSet::new(), str_to_chars(src), NESTING_LIMIT)
        .unwrap();
    let text = chars_to_str(&out);
    assert!(text.contains("second"));
    assert!(!text.contains("first"));
}

#[test]
fn width_suffixes_rewrite_to_emitted_suffixes() {
    let out = run("long big() { return 18l; }\nunsigned long wide() { return 5u; }\n");
    assert!(out.contains("pub fn big() -> i64 {\n\t18i64\n}"));
    assert!(out.contains("pub fn wide() -> u64 {\n\t5u64\n}"));
}

#[test]
fn address_of_adds_a_pointer_level() {
    let out = run("int * addr(int a) { return &a; }\n");
    assert!(out.contains("pub fn addr(a: i32) -> *mut i32 {\n\t&a\n}"));
}

#[test]
fn indentation_getters_follow_the_function_table() {
    let mut fns: Vec<Function> = Vec::new();
    assert_eq!(Tab::tabs_num(&fns), 0);
    assert_eq!(chars_to_str(&Tab::tabs(&fns)), "");
    assert_eq!(chars_to_str(&Tab::tabs_nl(&fns)), "\n");
    Function::add(
        &mut fns,
        Function {
            name: str_to_chars("f"),
            ret: BuiltinType::Void.as_id(),
            args: 0,
            lets: Vec::new(),
            attrs: Vec::new(),
            flags: FnFlags::full(),
        },
    );
    assert_eq!(Tab::tabs_num(&fns), 1);
    assert_eq!(chars_to_str(&Tab::tabs(&fns)), "\t");
    assert_eq!(chars_to_str(&Tab::tabs_nl(&fns)), "\n\t");
}

#[test]
fn parenthesis_helpers_normalise_one_outer_group() {
    assert!(is_surrounded_with_parents(&str_to_chars("(a + b)")));
    assert!(!is_surrounded_with_parents(&str_to_chars("(a) + (b)")));
    assert_eq!(chars_to_str(&deparentify(&str_to_chars("(foobar)"))), "foobar");
    assert_eq!(chars_to_str(&deparentify(&str_to_chars("(a) + (b)"))), "(a) + (b)");
    assert_eq!(chars_to_str(&parentify(&str_to_chars("foobar"))), "(foobar)");
    assert_eq!(chars_to_str(&parentify(&str_to_chars("(foobar)"))), "(foobar)");
}
