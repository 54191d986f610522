use hotstuff::model::{Project, Server, Sitefile};
use hotstuff::parser::{parse_sexp, ConfigError, SExpr};

fn atom(s: &str) -> SExpr {
    SExpr::Atom(s.to_string())
}

#[test]
fn parses_lists_separated_by_blank_lines_and_tabs() {
    assert_eq!(
        parse_sexp("(assets ./abcd.css)\n\n\t(hello world)"),
        Ok(vec![
            SExpr::List(vec![atom("assets"), atom("./abcd.css")]),
            SExpr::List(vec![atom("hello"), atom("world")]),
        ])
    );
}

#[test]
fn parses_single_lists() {
    assert_eq!(
        parse_sexp("(assets ./abcd.css)"),
        Ok(vec![SExpr::List(vec![atom("assets"), atom("./abcd.css")])])
    );
    assert_eq!(
        parse_sexp("(assets ./abcd.css logo.png)"),
        Ok(vec![SExpr::List(vec![
            atom("assets"),
            atom("./abcd.css"),
            atom("logo.png")
        ])])
    );
}

#[test]
fn atoms_split_on_spaces_and_tabs() {
    assert_eq!(
        parse_sexp("(abcd\tefg)"),
        Ok(vec![SExpr::List(vec![atom("abcd"), atom("efg")])])
    );
    assert_eq!(
        parse_sexp("( abcdefg )"),
        Ok(vec![SExpr::List(vec![atom("abcdefg")])])
    );
}

#[test]
fn quotes_stay_in_atoms() {
    assert_eq!(
        parse_sexp("(template \"t.html\")"),
        Ok(vec![SExpr::List(vec![atom("template"), atom("\"t.html\"")])])
    );
}

#[test]
fn empty_text_has_no_lists() {
    assert_eq!(parse_sexp(""), Ok(vec![]));
    assert_eq!(parse_sexp("  \n"), Ok(vec![]));
}

#[test]
fn malformed_texts_are_refused() {
    assert_eq!(parse_sexp("(assets"), Err(ConfigError::Syntax));
    assert_eq!(parse_sexp("assets)"), Err(ConfigError::Syntax));
    assert_eq!(parse_sexp("(a (b))"), Err(ConfigError::Syntax));
    assert_eq!(parse_sexp("(a) b"), Err(ConfigError::Syntax));
}

#[test]
fn sitefile_reads_template_and_assets() {
    let text = "(template \"./template.html\")\n(assets ./style.css logo.png)\n(unknown x)";
    let site = Sitefile::from_text("docs".to_string(), text).unwrap();
    assert_eq!(site.clone().dir(), "docs");
    assert_eq!(site.clone().template(), Some("template.html".to_string()));
    assert_eq!(
        site.assets(),
        Some(vec!["style.css".to_string(), "logo.png".to_string()])
    );
}

#[test]
fn sitefile_without_directives_has_nothing() {
    let site = Sitefile::from_text("d".to_string(), "").unwrap();
    assert_eq!(site.clone().template(), None);
    assert_eq!(site.assets(), None);
}

#[test]
fn sitefile_errors() {
    assert_eq!(
        Sitefile::from_text("d".to_string(), "(template").err(),
        Some(ConfigError::Syntax)
    );
    assert_eq!(
        Sitefile::from_text("d".to_string(), "(template)").err(),
        Some(ConfigError::MissingTemplateName)
    );
}

#[test]
fn sitefile_name_is_site() {
    assert_eq!(Sitefile::name(), "site");
}

#[test]
fn project_defaults_and_builders() {
    let p = Project::new();
    assert_eq!(p.clone().root(), ".");
    assert_eq!(p.clone().output_dir(), "./_public");
    let p = p.with_root("src".to_string()).with_output_dir("out".to_string());
    assert_eq!(p.clone().root(), "src");
    assert_eq!(p.output_dir(), "out");
}

#[test]
fn server_port_defaults_to_4000() {
    let s = Server::from_project(Project::new());
    assert_eq!(s.port(), 4000);
    let s = s.with_port(8080);
    assert_eq!(s.port(), 8080);
    assert_eq!(s.project().clone().root(), ".");
}
