use code_grep::{CodeParser, CommentType};

#[test]
fn test_rust_function_parsing() {
    let parser = CodeParser::new();
    let content = "fn main() {\n    println!(\"Hello\");\n}";
    let parsed = parser.parse(content, "test.rs").unwrap();
    assert_eq!(parsed.functions.len(), 1);
    assert_eq!(parsed.functions[0].name, "main");
}

#[test]
fn test_python_function_parsing() {
    let parser = CodeParser::new();
    let content = "def hello_world():\n    print('Hello')";
    let parsed = parser.parse(content, "test.py").unwrap();
    assert_eq!(parsed.functions.len(), 1);
    assert_eq!(parsed.functions[0].name, "hello_world");
}

#[test]
fn rust_outline() {
    let parser = CodeParser::new();
    let content = "use std::io;\n/// doc\nstruct Point {\n    x: i32,\n}\nimpl Point {\n    pub fn new() -> Self {\n// note\n";
    let parsed = parser.parse(content, "lib.rs").unwrap();
    assert_eq!(parsed.imports.len(), 1);
    assert_eq!(parsed.imports[0].module, "std::io");
    assert_eq!(parsed.classes.len(), 2);
    assert_eq!(parsed.classes[0].name, "Point");
    assert_eq!(parsed.classes[0].start_line, 3);
    assert_eq!(parsed.classes[1].name, "Point");
    assert_eq!(parsed.functions.len(), 1);
    assert_eq!(parsed.functions[0].name, "new");
    assert_eq!(parsed.functions[0].start_line, 7);
    assert_eq!(parsed.comments.len(), 2);
    assert_eq!(parsed.comments[0].comment_type, CommentType::Documentation);
    assert_eq!(parsed.comments[1].comment_type, CommentType::SingleLine);
}

#[test]
fn python_imports() {
    let parser = CodeParser::new();
    let parsed = parser.parse("from os import path, sep\nimport sys\nclass Foo(Base):\n# c", "m.py").unwrap();
    assert_eq!(parsed.imports.len(), 2);
    assert_eq!(parsed.imports[0].module, "os");
    assert_eq!(parsed.imports[0].items, vec!["path".to_string(), "sep".to_string()]);
    assert_eq!(parsed.imports[1].module, "sys");
    assert_eq!(parsed.classes[0].name, "Foo");
    assert_eq!(parsed.comments.len(), 1);
}

#[test]
fn go_and_script_outlines() {
    let parser = CodeParser::new();
    let go = parser.parse("import \"fmt\"\ntype Shape interface {\nfunc Area(s Shape) float64 {", "a.go").unwrap();
    assert_eq!(go.imports[0].module, "fmt");
    assert_eq!(go.classes[0].name, "Shape");
    assert_eq!(go.functions[0].name, "Area");
    let js = parser.parse("function greet(name) {\nconst f = () => 1;\nif (x) {\nclass Car {", "a.js").unwrap();
    assert_eq!(js.functions.len(), 2);
    assert_eq!(js.functions[0].name, "greet");
    assert_eq!(js.functions[1].name, "anonymous");
    assert_eq!(js.classes[0].name, "Car");
}

#[test]
fn generic_outline() {
    let parser = CodeParser::new();
    let parsed = parser.parse("# heading\nfunction x\nplain", "notes.txt").unwrap();
    assert_eq!(parsed.functions.len(), 1);
    assert_eq!(parsed.functions[0].name, "unknown");
    assert_eq!(parsed.comments.len(), 1);
}
