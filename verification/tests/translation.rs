use qas::err::CError;
use qas::parser::start;
use qas::preprocessor::SourceSet;

fn run(src: &str) -> String {
    start("unit.c", src, &SourceSet::new()).unwrap()
}

fn seven() -> i32 {
    3 + 4
}

#[test]
fn literal_addition_emits_the_literals_around_the_symbol() {
    let out = run("int seven() { return 3 + 4; }\n");
    assert!(out.contains("pub fn seven() -> i32 {\n\t3 + 4\n}"));
    assert_eq!(seven(), 7);
}

#[test]
fn mixed_types_convert_toward_the_dominant_side() {
    let out = run("long widen(int a, long b) { return a + b; }\n");
    assert!(out.contains("(a as i64) + b"));
}

#[test]
fn remainder_accepts_integers_only_and_coerces_floats_to_the_fallback() {
    let ints = run("int f(int a, int b) { return a % b; }\n");
    assert!(ints.contains("pub fn f(a: i32, b: i32) -> i32 {\n\ta % b\n}"));
    let floats = run("int g(float a, float b) { return a % b; }\n");
    assert!(floats.contains("(a as i32) % (b as i32)"));
}

#[test]
fn ternary_lowers_to_if_else_with_the_condition_made_boolean() {
    let out = run("int pick(_Bool c, int a, int b) { return c ? a : b; }\n");
    assert!(out.contains("if c {"));
    assert!(out.contains("} else {"));
}

#[test]
fn ternary_branches_unify_toward_the_dominant_type() {
    let out = run("long pick(_Bool c, int a, long b) { return c ? a : b; }\n");
    assert!(out.contains("(a as i64)"));
}

#[test]
fn a_static_function_loses_its_public_marker() {
    let out = run("static int hidden() { return 1; }\nint shown() { return 2; }\n");
    assert!(out.contains("\nfn hidden() -> i32"));
    assert!(out.contains("\npub fn shown() -> i32"));
}

#[test]
fn the_inline_attribute_is_emitted() {
    let out = run("inline int fast() { return 1; }\n");
    assert!(out.contains("#[inline]\npub fn fast() -> i32"));
}

#[test]
fn the_noreturn_attribute_marks_the_return_type() {
    let out = run("__ATTR__((\"noreturn\")) int spin(int a) { return a; }\n");
    assert!(out.contains("-> !"));
}

#[test]
fn a_void_function_has_no_return_clause() {
    let out = run("void nothing() { }\n");
    assert!(out.contains("pub fn nothing() {"));
    assert!(!out.contains("nothing() ->"));
}

#[test]
fn duplicate_attributes_are_fatal() {
    let r = start("unit.c", "inline inline int f() { return 1; }\n", &SourceSet::new());
    assert!(matches!(r, Err(CError::DuplicateAttributes)));
}

#[test]
fn a_bare_return_needs_a_unit_return_type() {
    let ok = run("void stop() { return; }\n");
    assert!(ok.contains("pub fn stop() {"));
    let r = start("unit.c", "int broken() { return; }\n", &SourceSet::new());
    assert!(matches!(r, Err(CError::ExpectedValue)));
}

#[test]
fn an_unknown_variable_is_fatal() {
    let r = start("unit.c", "int f() { return x; }\n", &SourceSet::new());
    assert!(matches!(r, Err(CError::UnknownVariable)));
}

#[test]
fn an_unknown_function_is_fatal() {
    let r = start("unit.c", "int f() { return g(); }\n", &SourceSet::new());
    assert!(matches!(r, Err(CError::UnknownFunction)));
}

#[test]
fn argument_counts_must_match() {
    let few = start(
        "unit.c",
        "int g(int a) { return a; }\nint f() { return g(); }\n",
        &SourceSet::new(),
    );
    assert!(matches!(few, Err(CError::LackOfArgs)));
    let many = start(
        "unit.c",
        "int g(int a) { return a; }\nint f() { return g(1, 2); }\n",
        &SourceSet::new(),
    );
    assert!(matches!(many, Err(CError::TooManyArgs)));
}

#[test]
fn a_call_converts_each_argument_to_its_parameter_type() {
    let out = run("long g(long a) { return a; }\nint f(int a) { return g(a); }\n");
    assert!(out.contains("g((a as i64))"));
}

#[test]
fn a_leading_comma_in_a_call_is_fatal() {
    let r = start(
        "unit.c",
        "int g(int a) { return a; }\nint f() { return g(, 1); }\n",
        &SourceSet::new(),
    );
    assert!(matches!(r, Err(CError::UnexpectedComma)));
}

#[test]
fn step_operators_lower_to_the_runtime_calls_and_promote_the_binding() {
    let out = run("int bump(int a) { return a++; }\n");
    assert!(out.contains("::qas::builtin::inca(&mut a)"));
    assert!(out.contains("bump(mut a: i32)"));
    let pre = run("int drop_one(int a) { return --a; }\n");
    assert!(pre.contains("::qas::builtin::decb(&mut a)"));
}

#[test]
fn a_step_operator_on_a_literal_is_fatal() {
    let r = start("unit.c", "int f() { return 3++; }\n", &SourceSet::new());
    assert!(matches!(r, Err(CError::ConstOperand)));
}

#[test]
fn dereference_of_a_value_type_is_fatal() {
    let r = start("unit.c", "int f(int a) { return *a; }\n", &SourceSet::new());
    assert!(matches!(r, Err(CError::DerefNonPtr)));
}

#[test]
fn dereference_of_a_void_pointer_is_fatal() {
    let r = start("unit.c", "int f(void * p) { return *p; }\n", &SourceSet::new());
    assert!(matches!(r, Err(CError::DerefVoidPtr)));
}

#[test]
fn a_character_outside_ascii_in_a_plain_string_is_fatal() {
    let r = start("unit.c", "char * f() { return \"caf\u{e9}\"; }\n", &SourceSet::new());
    assert!(matches!(r, Err(CError::NonAsciiString)));
    let wide = start("unit.c", "char * f() { return L\"caf\u{e9}\"; }\n", &SourceSet::new());
    assert!(wide.is_ok());
}

#[test]
fn dereference_demotes_an_unmarked_function_to_unsafe() {
    let out = run("int peek(int * p) { return *p; }\n");
    assert!(out.contains("unsafe fn peek"));
    assert!(!out.contains("unsafe { "));
}

#[test]
fn dereference_in_a_marked_function_wraps_in_an_unsafe_block() {
    let out = run("__ATTR__((\"safe\")) int peek(int * p) { return *p; }\n");
    assert!(out.contains("pub fn peek"));
    assert!(out.contains("unsafe { *p }"));
}

#[test]
fn a_typedef_emits_an_alias_unless_the_name_is_reserved() {
    let out = run("typedef int myint;\nmyint f(myint a) { return a; }\n");
    assert!(out.contains("type myint = i32;"));
    assert!(out.contains("pub fn f(a: i32) -> i32"));
    let kept = run("typedef int loop;\nint f(loop a) { return a; }\n");
    assert!(!kept.contains("type loop"));
    assert!(kept.contains("pub fn f(a: i32) -> i32"));
}

#[test]
fn a_string_literal_returns_as_a_character_pointer() {
    let out = run("char * hi() { return \"Hi there\"; }\n");
    assert!(out.contains("-> *mut u8"));
    assert!(out.contains("\"Hi there\0\".as_ptr()"));
}

#[test]
fn the_function_name_macro_expands_inside_a_body() {
    let out = run("char * me() { return __func__; }\n");
    assert!(out.contains("\"me\0\""));
}

#[test]
fn sizeof_lowers_to_the_runtime_query() {
    let out = run("unsigned long n() { return sizeof(int); }\n");
    assert!(out.contains("::qas::builtin::sizeof::<i32>()"));
}

#[test]
fn garbage_is_a_syntax_error() {
    let r = start("unit.c", "int f() { return 1; } $$$\n", &SourceSet::new());
    assert!(matches!(r, Err(CError::Syntax)));
}

#[test]
fn runtime_step_primitives_behave_as_the_emitted_calls_expect() {
    let mut x: i32 = 18;
    assert_eq!(qas::builtin::inca(&mut x), 18);
    assert_eq!(x, 19);
    assert_eq!(qas::builtin::incb(&mut x), 20);
    assert_eq!(x, 20);
    assert_eq!(qas::builtin::deca(&mut x), 20);
    assert_eq!(x, 19);
    assert_eq!(qas::builtin::decb(&mut x), 18);
    assert_eq!(x, 18);
    assert_eq!(qas::builtin::sizeof::<i32>(), 4);
    assert_eq!(qas::builtin::sizeof::<u64>(), 8);
}

#[test]
fn error_messages_describe_each_failure() {
    assert_eq!(CError::DerefNonPtr.message(), "cannot deref non-ptr");
    assert_eq!(CError::TooManyArgs.message(), "too many args");
    assert_eq!(
        CError::ConstOperand.message(),
        "cannot apply operator to const value"
    );
}
