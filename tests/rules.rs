use hotstuff::build_rules::{
    artifact_for, compile_document, fill_template, render_template, Artifact, CompilationUnit,
};
use hotstuff::text::{file_name, join_path, replace_all};

#[test]
fn markdown_documents_are_rendered() {
    let html = compile_document("docs/a.md", "# Hello");
    assert!(html.contains("<h1>Hello</h1>"), "{}", html);
}

#[test]
fn other_documents_pass_through() {
    assert_eq!(compile_document("docs/b.html", "# Hello"), "# Hello");
}

#[test]
fn template_gets_title_and_document() {
    let doc = "<h1>Welcome</h1><p>body</p>";
    let out = render_template(doc, "<title>{| title |}</title><main>{| document |}</main>");
    assert_eq!(
        out,
        "<title>Welcome</title><main><h1>Welcome</h1><p>body</p></main>"
    );
}

#[test]
fn template_title_is_empty_without_heading() {
    let out = render_template("<p>x</p>", "[{| title |}]{| document |}");
    assert_eq!(out, "[]<p>x</p>");
}

#[test]
fn fill_template_replaces_every_placeholder() {
    assert_eq!(
        fill_template("{| title |}-{| title |}:{| document |}", "T", "D"),
        "T-T:D"
    );
}

#[test]
fn replace_all_is_leftmost_and_non_overlapping() {
    assert_eq!(replace_all("aaa", "aa", "b"), "ba");
    assert_eq!(replace_all("abc", "x", "y"), "abc");
    assert_eq!(replace_all("\"a\"", "\"", ""), "a");
}

#[test]
fn paths_join_with_one_separator() {
    assert_eq!(join_path("a", "b"), "a/b");
    assert_eq!(join_path("a/", "b"), "a/b");
    assert_eq!(join_path("", "b"), "b");
    assert_eq!(file_name("./x/_public"), "_public");
    assert_eq!(file_name("plain"), "plain");
}

#[test]
fn artifacts_name_the_output() {
    let u = CompilationUnit::Copy {
        input: "a".to_string(),
        output: "b".to_string(),
    };
    assert_eq!(artifact_for(&u), Artifact::File("b".to_string()));
    let hit = CompilationUnit::CacheHit { unit: Box::new(u) };
    assert_eq!(artifact_for(&hit), Artifact::Nothing);
    let d = CompilationUnit::CreateDir {
        path: "out".to_string(),
    };
    assert_eq!(artifact_for(&d), Artifact::File("out".to_string()));
}

#[test]
fn units_compare_by_value() {
    let a = CompilationUnit::Compile {
        input: "i".to_string(),
        output: "o".to_string(),
    };
    let b = CompilationUnit::Compile {
        input: "i".to_string(),
        output: "o".to_string(),
    };
    assert_eq!(a, b);
    assert_ne!(a, CompilationUnit::CacheHit { unit: Box::new(b) });
}
