use qas::err::CError;
use qas::preprocessor::{preprocess_file, Macro, Preproc, SourceSet, NESTING_LIMIT};
use qas::text::{chars_to_str, str_to_chars};

fn run(src: &str) -> String {
    let mut st = Preproc::new("unit.c");
    let out = preprocess_file(&mut st, &SourceSet::new(), str_to_chars(src), NESTING_LIMIT)
        .unwrap();
    chars_to_str(&out)
}

#[test]
fn conditional_keeps_the_body_when_the_name_is_undefined() {
    let out = run("#ifndef FOO\nint a;\n#endif\n");
    assert_eq!(out, "\nint a;\n\n");
}

#[test]
fn conditional_replaces_the_body_with_blank_lines_when_defined() {
    let with_def = run("#define FOO\n#ifndef FOO\nint a;\n#endif\n");
    assert_eq!(with_def, "\n\n\n\n");
    let mut st = Preproc::new("unit.c");
    Macro::add(&mut st.macros, &str_to_chars("FOO"), &str_to_chars(""));
    let construct = "#ifndef FOO\nint a;\n#endif\n";
    let excluded = chars_to_str(
        &preprocess_file(&mut st, &SourceSet::new(), str_to_chars(construct), NESTING_LIMIT)
            .unwrap(),
    );
    let kept = run(construct);
    assert_eq!(excluded.matches('\n').count(), kept.matches('\n').count());
}

#[test]
fn macro_substitution_is_verbatim_and_single_pass() {
    let out = run("#define N 41\nN + 1\n");
    assert_eq!(out, "\n41 + 1\n");
}

#[test]
fn undef_removes_a_macro_and_absence_is_no_error() {
    let out = run("#define N 41\n#undef N\n#undef M\nN\n");
    assert_eq!(out, "\n\n\nN\n");
}

#[test]
fn line_directive_resets_the_counter() {
    let out = run("#line 42\n__LINE__\n");
    assert_eq!(out, "\n42\n");
}

#[test]
fn line_counter_steps_once_per_newline() {
    let out = run("__LINE__\n__LINE__\n");
    assert_eq!(out, "1\n2\n");
}

#[test]
fn file_macro_expands_to_the_quoted_name() {
    let out = run("__FILE__\n");
    assert_eq!(out, "\"unit.c\"\n");
}

#[test]
fn splicing_pulls_a_supplied_source_in() {
    let mut st = Preproc::new("unit.c");
    let mut sources = SourceSet::new();
    sources.supply("other.h", "#define N 7\n");
    let directive = String::from_utf8(vec![b'#', b'i', b'n', b'c', b'l', b'u', b'd', b'e'])
        .unwrap();
    let src = format!("{} \"other.h\"\nN\n", directive);
    let out = preprocess_file(&mut st, &sources, str_to_chars(&src), NESTING_LIMIT).unwrap();
    assert_eq!(chars_to_str(&out), "\n\n7\n");
}

#[test]
fn splicing_an_unknown_source_fails() {
    let mut st = Preproc::new("unit.c");
    let directive = String::from_utf8(vec![b'#', b'i', b'n', b'c', b'l', b'u', b'd', b'e'])
        .unwrap();
    let src = format!("{} \"gone.h\"\n", directive);
    let r = preprocess_file(&mut st, &SourceSet::new(), str_to_chars(&src), NESTING_LIMIT);
    assert!(matches!(r, Err(CError::MissingSource)));
}

#[test]
fn self_splicing_runs_into_the_nesting_limit() {
    let mut st = Preproc::new("unit.c");
    let mut sources = SourceSet::new();
    let directive = String::from_utf8(vec![b'#', b'i', b'n', b'c', b'l', b'u', b'd', b'e'])
        .unwrap();
    let looped = format!("{} \"me.h\"\n", directive);
    sources.supply("me.h", &looped);
    let r = preprocess_file(&mut st, &sources, str_to_chars(&looped), NESTING_LIMIT);
    assert!(matches!(r, Err(CError::TooDeep)));
}

#[test]
fn a_bad_line_number_is_fatal() {
    let mut st = Preproc::new("unit.c");
    let r = preprocess_file(
        &mut st,
        &SourceSet::new(),
        str_to_chars("#line abc\n"),
        NESTING_LIMIT,
    );
    assert!(matches!(r, Err(CError::WrongLineNumber)));
}

#[test]
fn comments_are_stripped_before_directives_run() {
    let out = run("int a; // trailing words\n/* span\nover lines */int b;\n");
    assert_eq!(out, "int a; \nint b;\n");
}

#[test]
fn an_unterminated_block_comment_consumes_to_the_end() {
    let out = run("int a; /* left open\nint b;\n");
    assert_eq!(out, "int a; ");
}

#[test]
fn conditionals_nest() {
    let out = run("#ifndef A\n#ifndef B\nx\n#endif\n#endif\n");
    assert_eq!(out, "\n\nx\n\n\n");
}

#[test]
fn predefined_macros_are_present() {
    let mut ms: Vec<Macro> = Vec::new();
    Macro::predefine_all(&mut ms);
    let stdc = Macro::find(&ms, &str_to_chars("__STDC__")).unwrap();
    assert_eq!(chars_to_str(&stdc), "1");
    let ver = Macro::find(&ms, &str_to_chars("__STDC_VERSION__")).unwrap();
    assert_eq!(chars_to_str(&ver), "199901");
    assert!(Macro::is_defined(&ms, &str_to_chars("__RUST__")));
    assert!(Macro::is_defined(&ms, &str_to_chars("__qas_minor__")));
    let date = Macro::find(&ms, &str_to_chars("__DATE__")).unwrap();
    let date_text = chars_to_str(&date);
    assert!(date_text.starts_with('"') && date_text.ends_with('"'));
    assert!(date_text.len() >= 12);
    let time = Macro::find(&ms, &str_to_chars("__TIME__")).unwrap();
    let time_text = chars_to_str(&time);
    assert_eq!(time_text.len(), 10);
    assert_eq!(&time_text[3..4], ":");
}

#[test]
fn redefining_a_macro_overwrites_its_replacement() {
    let out = run("#define N 1\n#define N 2\nN\n");
    assert_eq!(out, "\n\n2\n");
}
