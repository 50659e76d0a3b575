use qas::parser::start;
use qas::preprocessor::SourceSet;

fn add(a: i32, b: i32) -> i32 {
    a + b
}

fn mulf(a: f32, b: f32) -> f32 {
    a * b
}

fn divd(a: f64, b: f64) -> f64 {
    a / b
}

#[test]
fn arithmetic_main() {
    let src = "int add(int a, int b) { return a + b; }\nfloat mulf(float a, float b) { return a * b; }\ndouble divd(double a, double b) { return a / b; }\n";
    let out = start("arithmetic.c", src, &SourceSet::new()).unwrap();
    assert!(out.contains("pub fn add(a: i32, b: i32) -> i32 {\n\ta + b\n}"));
    assert!(out.contains("pub fn mulf(a: f32, b: f32) -> f32 {\n\ta * b\n}"));
    assert!(out.contains("pub fn divd(a: f64, b: f64) -> f64 {\n\ta / b\n}"));
    assert_eq!(add(29, 41), 70);
    assert_eq!(mulf(2.5, 4.0), 10.0);
    assert_eq!(divd(6.9, 3.0), 2.3000000000000003);
}
