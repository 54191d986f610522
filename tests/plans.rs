use hotstuff::build_executor::{is_fresh, FsSnapshot};
use hotstuff::build_graph::BuildPlan;
use hotstuff::build_rules::CompilationUnit;
use hotstuff::discovery::{plan_build, plan_site, SiteError, SourceDir};
use hotstuff::model::{Project, Sitefile};
use hotstuff::parser::ConfigError;

fn s(x: &str) -> String {
    x.to_string()
}

fn dir_unit(p: &str) -> CompilationUnit {
    CompilationUnit::CreateDir { path: s(p) }
}

fn copy(i: &str, o: &str) -> CompilationUnit {
    CompilationUnit::Copy {
        input: s(i),
        output: s(o),
    }
}

fn compile(i: &str, o: &str) -> CompilationUnit {
    CompilationUnit::Compile {
        input: s(i),
        output: s(o),
    }
}

fn template(o: &str, t: &str) -> CompilationUnit {
    CompilationUnit::Template {
        input: s(o),
        output: s(o),
        template: s(t),
    }
}

fn hit(u: CompilationUnit) -> CompilationUnit {
    CompilationUnit::CacheHit { unit: Box::new(u) }
}

fn files(names: &[&str]) -> Vec<String> {
    names.iter().map(|n| n.to_string()).collect()
}

fn leaf_dir(name: &str, fs: &[&str], sitefile: Option<&str>) -> SourceDir {
    SourceDir {
        name: s(name),
        files: files(fs),
        dirs: vec![],
        sitefile: sitefile.map(s),
    }
}

fn template_site() -> BuildPlan {
    let site = Sitefile::from_text(s("S"), "(template T.html)").unwrap();
    plan_site(
        "S",
        "out/S",
        &files(&["T.html", "a.md", "b.html", "site"]),
        site,
        "out",
    )
}

fn snapshot(entries: &[(&str, u128)]) -> FsSnapshot {
    let mut snap = FsSnapshot::new();
    for (p, t) in entries {
        snap.record(s(p), *t);
    }
    snap
}

fn built_snapshot(template_time: u128) -> FsSnapshot {
    snapshot(&[
        ("S/T.html", template_time),
        ("S/a.md", 10),
        ("S/b.html", 10),
        ("out/S", 20),
        ("out/S/T.html", 20),
        ("out/S/a.html", 20),
        ("out/S/b.html", 20),
    ])
}

#[test]
fn template_site_plan_shape() {
    let plan = template_site();
    assert_eq!(
        plan.breadth_first_iter(),
        vec![
            dir_unit("out/S"),
            copy("S/T.html", "out/S/T.html"),
            compile("S/a.md", "out/S/a.html"),
            template("out/S/a.html", "S/T.html"),
            compile("S/b.html", "out/S/b.html"),
            template("out/S/b.html", "S/T.html"),
        ]
    );
}

#[test]
fn touching_the_template_reruns_every_document() {
    let fresh = template_site().compute_diff(&built_snapshot(10));
    assert_eq!(fresh.pending_units(), vec![]);

    let touched = template_site().compute_diff(&built_snapshot(30));
    assert_eq!(
        touched.pending_units(),
        vec![
            copy("S/T.html", "out/S/T.html"),
            compile("S/a.md", "out/S/a.html"),
            template("out/S/a.html", "S/T.html"),
            compile("S/b.html", "out/S/b.html"),
            template("out/S/b.html", "S/T.html"),
        ]
    );
}

#[test]
fn stale_root_leaves_fresh_descendants_unwrapped() {
    let snap = snapshot(&[
        ("S/T.html", 10),
        ("S/a.md", 10),
        ("S/b.html", 10),
        ("out/S/T.html", 20),
        ("out/S/a.html", 20),
        ("out/S/b.html", 20),
    ]);
    let diffed = template_site().compute_diff(&snap);
    assert_eq!(diffed.breadth_first_iter(), template_site().breadth_first_iter());
}

#[test]
fn second_diff_after_a_build_caches_everything() {
    let diffed = template_site().compute_diff(&built_snapshot(10));
    assert_eq!(
        diffed.breadth_first_iter(),
        vec![
            hit(dir_unit("out/S")),
            hit(copy("S/T.html", "out/S/T.html")),
            hit(compile("S/a.md", "out/S/a.html")),
            hit(template("out/S/a.html", "S/T.html")),
            hit(compile("S/b.html", "out/S/b.html")),
            hit(template("out/S/b.html", "S/T.html")),
        ]
    );
    let again = diffed.compute_diff(&built_snapshot(10));
    assert_eq!(again.pending_units(), vec![]);
}

#[test]
fn equal_times_split_between_compile_and_template() {
    let snap = snapshot(&[("in", 5), ("out", 5), ("tpl", 5)]);
    assert!(!is_fresh(&snap, &compile("in", "out")));
    assert!(!is_fresh(&snap, &copy("in", "out")));
    assert!(is_fresh(&snap, &template("out", "tpl")));
    let snap = snapshot(&[("in", 5), ("out", 6), ("tpl", 7)]);
    assert!(is_fresh(&snap, &compile("in", "out")));
    assert!(!is_fresh(&snap, &template("out", "tpl")));
}

#[test]
fn missing_files_count_as_oldest() {
    let snap = snapshot(&[("out", 1)]);
    assert!(is_fresh(&snap, &copy("in", "out")));
    assert!(!is_fresh(&snap, &copy("out", "missing")));
    assert!(is_fresh(&snap, &dir_unit("out")));
    assert!(!is_fresh(&snap, &dir_unit("nowhere")));
    assert!(!is_fresh(&snap, &hit(dir_unit("out"))));
}

#[test]
fn preorder_puts_parents_first() {
    let plan = BuildPlan::start_with(dir_unit("a")).and_then(vec![
        BuildPlan::start_with(dir_unit("b")).and_then(vec![BuildPlan::start_with(dir_unit("c"))]),
        BuildPlan::start_with(dir_unit("d")),
    ]);
    assert_eq!(
        plan.breadth_first_iter(),
        vec![dir_unit("a"), dir_unit("b"), dir_unit("c"), dir_unit("d")]
    );
    let deps = plan.deps();
    assert_eq!(deps.len(), 2);
    assert_eq!(BuildPlan::start_with(dir_unit("x")).deps().len(), 0);
}

#[test]
fn map_keeps_children_of_unchanged_units() {
    let plan = BuildPlan::start_with(dir_unit("a")).and_then(vec![BuildPlan::start_with(dir_unit("b"))]);
    let wrap_b = |u: CompilationUnit| {
        if u == dir_unit("b") {
            hit(u)
        } else {
            u
        }
    };
    assert_eq!(
        plan.map(&wrap_b).breadth_first_iter(),
        vec![dir_unit("a"), dir_unit("b")]
    );
    let plan = BuildPlan::start_with(dir_unit("a")).and_then(vec![BuildPlan::start_with(dir_unit("b"))]);
    let wrap_all = |u: CompilationUnit| hit(u);
    assert_eq!(
        plan.map(&wrap_all).breadth_first_iter(),
        vec![hit(dir_unit("a")), hit(dir_unit("b"))]
    );
}

#[test]
fn asset_sentinel_copies_every_plain_file() {
    let site = Sitefile::from_text(s("d"), "(assets .)").unwrap();
    let plan = plan_site(
        "d",
        "out/d",
        &files(&["logo.png", "style.css", "site", "notes.txt~"]),
        site,
        "out",
    );
    assert_eq!(
        plan.breadth_first_iter(),
        vec![
            dir_unit("out/d"),
            copy("d/logo.png", "out/d/logo.png"),
            copy("d/style.css", "out/d/style.css"),
        ]
    );
}

#[test]
fn swap_files_and_output_name_are_not_assets() {
    let site = Sitefile::from_text(s("d"), "(assets a.swp b.swo _public c.txt)").unwrap();
    let plan = plan_site("d", "_public/d", &files(&[]), site, "_public");
    assert_eq!(
        plan.breadth_first_iter(),
        vec![dir_unit("_public/d"), copy("d/c.txt", "_public/d/c.txt")]
    );
}

#[test]
fn documents_without_template_are_siblings_before_assets() {
    let site = Sitefile::from_text(s("d"), "(assets x.css)").unwrap();
    let plan = plan_site("d", "o", &files(&["a.md", "x.css", "b.html"]), site, "o");
    assert_eq!(
        plan.breadth_first_iter(),
        vec![
            dir_unit("o"),
            compile("d/a.md", "o/a.html"),
            compile("d/b.html", "o/b.html"),
            copy("d/x.css", "o/x.css"),
        ]
    );
}

#[test]
fn output_directory_inside_the_source_is_skipped() {
    let project = Project::new()
        .with_root(s("r"))
        .with_output_dir(s("r/site"));
    let tree = SourceDir {
        name: s("r"),
        files: vec![],
        dirs: vec![
            leaf_dir("blog", &["index.md", "site"], Some("")),
            SourceDir {
                name: s("site"),
                files: vec![],
                dirs: vec![leaf_dir("blog", &["index.html", "site"], Some(""))],
                sitefile: None,
            },
        ],
        sitefile: None,
    };
    let plan = plan_build(project, &tree).unwrap();
    assert_eq!(
        plan.breadth_first_iter(),
        vec![
            dir_unit("r/site"),
            dir_unit("r/site/blog"),
            compile("r/blog/index.md", "r/site/blog/index.html"),
        ]
    );
}

#[test]
fn nested_sites_come_before_their_parent() {
    let project = Project::new().with_root(s("r")).with_output_dir(s("o"));
    let tree = SourceDir {
        name: s("r"),
        files: files(&["home.md", "site"]),
        dirs: vec![leaf_dir("sub", &["p.html", "site"], Some(""))],
        sitefile: Some(s("")),
    };
    let plan = plan_build(project, &tree).unwrap();
    assert_eq!(
        plan.breadth_first_iter(),
        vec![
            dir_unit("o"),
            dir_unit("o/sub"),
            compile("r/sub/p.html", "o/sub/p.html"),
            dir_unit("o"),
            compile("r/home.md", "o/home.html"),
        ]
    );
}

#[test]
fn malformed_sitefile_is_reported_with_its_directory() {
    let project = Project::new().with_root(s("r")).with_output_dir(s("o"));
    let tree = SourceDir {
        name: s("r"),
        files: vec![],
        dirs: vec![leaf_dir("bad", &["site"], Some("(assets"))],
        sitefile: None,
    };
    assert_eq!(
        plan_build(project, &tree).err(),
        Some(SiteError {
            dir: s("r/bad"),
            kind: ConfigError::Syntax
        })
    );
}
