//! Site discovery: the build plan of one site directory, and of a whole source tree.
use vstd::prelude::*;

use crate::build_graph::{plans_view, BuildPlan, PlanV};
use crate::build_rules::{CompilationUnit, UnitV};
use crate::model::{
    opt_strings_view, opt_view, sitefile_name, sitefile_of, strings_view, Project, Sitefile,
};
use crate::parser::ConfigError;
use crate::text::{ends_with, file_name, has_suffix, join_path, joined, last_component, same_text};

verus! {

/// A document: a file whose name ends in `.html` or `.md`.
pub open spec fn is_document(n: Seq<char>) -> bool {
    has_suffix(n, seq!['.', 'h', 't', 'm', 'l']) || has_suffix(n, seq!['.', 'm', 'd'])
}

/// The name of a document's compiled output: `.md` becomes `.html`.
pub open spec fn html_name(n: Seq<char>) -> Seq<char> {
    if has_suffix(n, seq!['.', 'm', 'd']) {
        n.subrange(0, n.len() - 3) + seq!['.', 'h', 't', 'm', 'l']
    } else {
        n
    }
}

/// The plan of one document `d`: its compilation, followed by the application of the
/// template when there is one.
pub open spec fn doc_plan(
    root: Seq<char>,
    out: Seq<char>,
    tmpl: Option<Seq<char>>,
    d: Seq<char>,
) -> PlanV {
    let o = joined(out, html_name(d));
    let c = UnitV::Compile { input: joined(root, d), output: o };
    match tmpl {
        None => PlanV::Leaf(c),
        Some(t) => PlanV::Node(
            c,
            seq![PlanV::Leaf(UnitV::Template { input: o, output: o, template: joined(root, t) })],
        ),
    }
}

/// The plans of the documents among `files`, the template itself excepted, in order.
pub open spec fn doc_plans(
    root: Seq<char>,
    out: Seq<char>,
    tmpl: Option<Seq<char>>,
    files: Seq<Seq<char>>,
) -> Seq<PlanV>
    decreases files.len(),
{
    if files.len() == 0 {
        seq![]
    } else {
        let d = files.last();
        doc_plans(root, out, tmpl, files.drop_last()) + if is_document(d) && tmpl != Some(d) {
            seq![doc_plan(root, out, tmpl, d)]
        } else {
            seq![]
        }
    }
}

/// The declared assets with each `.` replaced by all of the directory's files.
pub open spec fn expanded(assets: Seq<Seq<char>>, files: Seq<Seq<char>>) -> Seq<Seq<char>>
    decreases assets.len(),
{
    if assets.len() == 0 {
        seq![]
    } else {
        expanded(assets.drop_last(), files) + if assets.last() == seq!['.'] {
            files
        } else {
            seq![assets.last()]
        }
    }
}

/// An asset name that is never copied: the output directory's name, the sitefile, or
/// an editor backup or swap file.
pub open spec fn is_excluded(n: Seq<char>, out_name: Seq<char>) -> bool {
    n == out_name || n == sitefile_name() || has_suffix(n, seq!['~']) || has_suffix(
        n,
        seq!['.', 's', 'w', 'p'],
    ) || has_suffix(n, seq!['.', 's', 'w', 'o'])
}

/// The copies of the assets among `names` that are not excluded, in order.
pub open spec fn asset_plans(
    root: Seq<char>,
    out: Seq<char>,
    names: Seq<Seq<char>>,
    out_name: Seq<char>,
) -> Seq<PlanV>
    decreases names.len(),
{
    if names.len() == 0 {
        seq![]
    } else {
        let a = names.last();
        asset_plans(root, out, names.drop_last(), out_name) + if is_excluded(a, out_name) {
            seq![]
        } else {
            seq![PlanV::Leaf(UnitV::Copy { input: joined(root, a), output: joined(out, a) })]
        }
    }
}

/// The plan of the site in `root` with output directory `out`: create the output
/// directory, then the documents (all under the template's copy when there is a
/// template), then the asset copies.
pub open spec fn site_plan(
    root: Seq<char>,
    out: Seq<char>,
    files: Seq<Seq<char>>,
    tmpl: Option<Seq<char>>,
    assets: Option<Seq<Seq<char>>>,
    out_name: Seq<char>,
) -> PlanV {
    let docs = doc_plans(root, out, tmpl, files);
    let names = match assets {
        Some(a) => expanded(a, files),
        None => seq![],
    };
    let copies = asset_plans(root, out, names, out_name);
    let first = match tmpl {
        Some(t) => seq![
            PlanV::Node(UnitV::Copy { input: joined(root, t), output: joined(out, t) }, docs),
        ],
        None => docs,
    };
    PlanV::Node(UnitV::CreateDir { path: out }, first + copies)
}

fn html_file_name(d: &str) -> (r: String)
    ensures
        r@ == html_name(d@),
{
    proof {
        reveal_strlit(".md");
        reveal_strlit(".html");
        assert(".md"@ =~= seq!['.', 'm', 'd']);
        assert(".html"@ =~= seq!['.', 'h', 't', 'm', 'l']);
    }
    if ends_with(d, ".md") {
        let n = d.unicode_len();
        d.substring_char(0, n - 3).to_owned().concat(".html")
    } else {
        d.to_owned()
    }
}

fn is_document_name(d: &str) -> (r: bool)
    ensures
        r == is_document(d@),
{
    proof {
        reveal_strlit(".md");
        reveal_strlit(".html");
        assert(".md"@ =~= seq!['.', 'm', 'd']);
        assert(".html"@ =~= seq!['.', 'h', 't', 'm', 'l']);
    }
    ends_with(d, ".html") || ends_with(d, ".md")
}

fn is_excluded_name(n: &str, out_name: &str) -> (r: bool)
    ensures
        r == is_excluded(n@, out_name@),
{
    proof {
        reveal_strlit("site");
        reveal_strlit("~");
        reveal_strlit(".swp");
        reveal_strlit(".swo");
        assert("site"@ =~= sitefile_name());
        assert("~"@ =~= seq!['~']);
        assert(".swp"@ =~= seq!['.', 's', 'w', 'p']);
        assert(".swo"@ =~= seq!['.', 's', 'w', 'o']);
    }
    same_text(n, out_name) || same_text(n, "site") || ends_with(n, "~") || ends_with(n, ".swp")
        || ends_with(n, ".swo")
}

fn plan_doc(root: &str, out: &str, tmpl: &Option<String>, d: &str) -> (r: BuildPlan)
    ensures
        r@ == doc_plan(root@, out@, opt_view(*tmpl), d@),
{
    let name = html_file_name(d);
    let o = join_path(out, name.as_str());
    let compile = BuildPlan::start_with(
        CompilationUnit::Compile { input: join_path(root, d), output: o.clone() },
    );
    match tmpl {
        None => compile,
        Some(t) => {
            let apply = CompilationUnit::Template {
                input: o.clone(),
                output: o,
                template: join_path(root, t.as_str()),
            };
            let r = compile.and_then(vec![BuildPlan::start_with(apply)]);
            assert(r@->Node_1 =~= doc_plan(root@, out@, opt_view(*tmpl), d@)->Node_1);
            r
        },
    }
}

fn plan_docs(root: &str, out: &str, tmpl: &Option<String>, files: &Vec<String>) -> (r: Vec<
    BuildPlan,
>)
    ensures
        plans_view(r@) == doc_plans(root@, out@, opt_view(*tmpl), strings_view(files@)),
{
    let ghost fs = strings_view(files@);
    let mut r: Vec<BuildPlan> = Vec::new();
    let mut i: usize = 0;
    assert(fs.subrange(0, 0) =~= Seq::<Seq<char>>::empty());
    assert(plans_view(r@) =~= Seq::<PlanV>::empty());
    while i < files.len()
        invariant
            fs == strings_view(files@),
            i <= files@.len(),
            plans_view(r@) == doc_plans(root@, out@, opt_view(*tmpl), fs.subrange(0, i as int)),
        decreases files@.len() - i,
    {
        let d = files[i].as_str();
        let ghost pre = fs.subrange(0, i + 1);
        assert(pre.drop_last() =~= fs.subrange(0, i as int));
        assert(pre.last() == d@);
        let is_template = match tmpl {
            Some(t) => same_text(d, t.as_str()),
            None => false,
        };
        let ghost before = r@;
        if is_document_name(d) && !is_template {
            let p = plan_doc(root, out, tmpl, d);
            r.push(p);
            assert(plans_view(r@) =~= plans_view(before).push(p@));
        } else {
            assert(plans_view(r@) =~= plans_view(before) + Seq::<PlanV>::empty());
        }
        i = i + 1;
    }
    assert(fs.subrange(0, files@.len() as int) =~= fs);
    r
}

fn expand_assets(assets: &Vec<String>, files: &Vec<String>) -> (r: Vec<String>)
    ensures
        strings_view(r@) == expanded(strings_view(assets@), strings_view(files@)),
{
    let ghost az = strings_view(assets@);
    let ghost fs = strings_view(files@);
    let mut r: Vec<String> = Vec::new();
    let mut i: usize = 0;
    proof {
        reveal_strlit(".");
        assert("."@ =~= seq!['.']);
    }
    assert(az.subrange(0, 0) =~= Seq::<Seq<char>>::empty());
    assert(strings_view(r@) =~= Seq::<Seq<char>>::empty());
    while i < assets.len()
        invariant
            az == strings_view(assets@),
            fs == strings_view(files@),
            "."@ == seq!['.'],
            i <= assets@.len(),
            strings_view(r@) == expanded(az.subrange(0, i as int), fs),
        decreases assets@.len() - i,
    {
        let a = assets[i].as_str();
        let ghost pre = az.subrange(0, i + 1);
        assert(pre.drop_last() =~= az.subrange(0, i as int));
        assert(pre.last() == a@);
        let ghost before = strings_view(r@);
        if same_text(a, ".") {
            let mut k: usize = 0;
            while k < files.len()
                invariant
                    fs == strings_view(files@),
                    k <= files@.len(),
                    strings_view(r@) == before + fs.subrange(0, k as int),
                decreases files@.len() - k,
            {
                let ghost mid = strings_view(r@);
                let f = files[k].clone();
                r.push(f);
                assert(strings_view(r@) =~= mid.push(fs[k as int]));
                assert(fs.subrange(0, k + 1) =~= fs.subrange(0, k as int).push(fs[k as int]));
                assert(strings_view(r@) =~= before + fs.subrange(0, k + 1));
                k = k + 1;
            }
            assert(fs.subrange(0, files@.len() as int) =~= fs);
        } else {
            r.push(assets[i].clone());
            assert(strings_view(r@) =~= before + seq![a@]);
        }
        i = i + 1;
    }
    assert(az.subrange(0, assets@.len() as int) =~= az);
    r
}

fn plan_assets(root: &str, out: &str, names: &Vec<String>, out_name: &str) -> (r: Vec<BuildPlan>)
    ensures
        plans_view(r@) == asset_plans(root@, out@, strings_view(names@), out_name@),
{
    let ghost ns = strings_view(names@);
    let mut r: Vec<BuildPlan> = Vec::new();
    let mut i: usize = 0;
    assert(ns.subrange(0, 0) =~= Seq::<Seq<char>>::empty());
    assert(plans_view(r@) =~= Seq::<PlanV>::empty());
    while i < names.len()
        invariant
            ns == strings_view(names@),
            i <= names@.len(),
            plans_view(r@) == asset_plans(root@, out@, ns.subrange(0, i as int), out_name@),
        decreases names@.len() - i,
    {
        let a = names[i].as_str();
        let ghost pre = ns.subrange(0, i + 1);
        assert(pre.drop_last() =~= ns.subrange(0, i as int));
        assert(pre.last() == a@);
        let ghost before = r@;
        if !is_excluded_name(a, out_name) {
            let p = BuildPlan::start_with(
                CompilationUnit::Copy { input: join_path(root, a), output: join_path(out, a) },
            );
            r.push(p);
            assert(plans_view(r@) =~= plans_view(before).push(p@));
        } else {
            assert(plans_view(r@) =~= plans_view(before) + Seq::<PlanV>::empty());
        }
        i = i + 1;
    }
    assert(ns.subrange(0, names@.len() as int) =~= ns);
    r
}

/// The build plan of the site in `root`, whose directory holds the files `files`, with
/// configuration `site` and output directory `output_dir`; `out_name` is the name of the
/// project's output directory, never copied as an asset.
pub fn plan_site(
    root: &str,
    output_dir: &str,
    files: &Vec<String>,
    site: Sitefile,
    out_name: &str,
) -> (r: BuildPlan)
    ensures
        r@ == site_plan(
            root@,
            output_dir@,
            strings_view(files@),
            site@.template,
            site@.assets,
            out_name@,
        ),
{
    let (tmpl, assets) = site.into_config();
    let docs = plan_docs(root, output_dir, &tmpl, files);
    let names = match &assets {
        Some(a) => expand_assets(a, files),
        None => Vec::new(),
    };
    assert(strings_view(names@) == match opt_strings_view(assets) {
        Some(a) => expanded(a, strings_view(files@)),
        None => seq![],
    }) by {
        if assets is None {
            assert(strings_view(names@) =~= Seq::<Seq<char>>::empty());
        }
    }
    let mut copies = plan_assets(root, output_dir, &names, out_name);
    let ghost cv = plans_view(copies@);
    let mut children: Vec<BuildPlan> = Vec::new();
    match &tmpl {
        Some(t) => {
            let copy_template = CompilationUnit::Copy {
                input: join_path(root, t.as_str()),
                output: join_path(output_dir, t.as_str()),
            };
            let node = BuildPlan::start_with(copy_template).and_then(docs);
            children.push(node);
        },
        None => {
            children = docs;
        },
    }
    let ghost first = plans_view(children@);
    children.append(&mut copies);
    assert(plans_view(children@) =~= first + cv);
    let r = BuildPlan::start_with(CompilationUnit::CreateDir { path: output_dir.to_owned() }).and_then(
        children,
    );
    assert(r@->Node_1 =~= site_plan(
        root@,
        output_dir@,
        strings_view(files@),
        site@.template,
        site@.assets,
        out_name@,
    )->Node_1);
    r
}

/// Mathematical form of a `SourceDir`.
pub struct DirV {
    pub name: Seq<char>,
    pub files: Seq<Seq<char>>,
    pub dirs: Seq<DirV>,
    pub sitefile: Option<Seq<char>>,
}

/// What a walk of the source tree found in one directory: the names of its files, its
/// sub-directories, and the text of its sitefile when it has one.
#[derive(Debug)]
pub struct SourceDir {
    pub name: String,
    pub files: Vec<String>,
    pub dirs: Vec<SourceDir>,
    pub sitefile: Option<String>,
}

impl SourceDir {
    pub open spec fn view(&self) -> DirV
        decreases self,
    {
        DirV {
            name: self.name@,
            files: strings_view(self.files@),
            dirs: Seq::new(
                self.dirs@.len(),
                |i: int|
                    if 0 <= i < self.dirs@.len() {
                        self.dirs@[i].view()
                    } else {
                        DirV { name: seq![], files: seq![], dirs: seq![], sitefile: None }
                    },
            ),
            sitefile: opt_view(self.sitefile),
        }
    }
}

/// The mathematical form of a `SiteError`.
pub struct SiteErrV {
    pub dir: Seq<char>,
    pub kind: ConfigError,
}

/// A site directory whose sitefile could not be read as a configuration.
#[derive(Debug, PartialEq)]
pub struct SiteError {
    pub dir: String,
    pub kind: ConfigError,
}

/// The site plans found in `d`, at `path`, whose output mirrors to `out`: those of its
/// sub-directories in order, except the one that is the output directory itself, then
/// its own when it has a sitefile. The first malformed sitefile met, a directory's own
/// before its sub-directories', is an error.
pub open spec fn found(d: DirV, path: Seq<char>, out: Seq<char>, out_name: Seq<char>) -> Result<
    Seq<PlanV>,
    SiteErrV,
>
    decreases d, 1nat,
{
    let own: Result<Seq<PlanV>, SiteErrV> = match d.sitefile {
        None => Ok(seq![]),
        Some(t) => match sitefile_of(path, t) {
            Err(e) => Err(SiteErrV { dir: path, kind: e }),
            Ok(sv) => Ok(seq![site_plan(path, out, d.files, sv.template, sv.assets, out_name)]),
        },
    };
    match own {
        Err(e) => Err(e),
        Ok(o) => match found_all(d.dirs, path, out, out_name) {
            Err(e) => Err(e),
            Ok(ps) => Ok(ps + o),
        },
    }
}

/// The site plans found in the sub-directories `ds` of the directory at `path`.
pub open spec fn found_all(
    ds: Seq<DirV>,
    path: Seq<char>,
    out: Seq<char>,
    out_name: Seq<char>,
) -> Result<Seq<PlanV>, SiteErrV>
    decreases ds, 0nat,
{
    if ds.len() == 0 {
        Ok(seq![])
    } else {
        match found_all(ds.subrange(0, ds.len() - 1), path, out, out_name) {
            Err(e) => Err(e),
            Ok(ps) => {
                let d = ds[ds.len() - 1];
                let p = joined(path, d.name);
                if p == out {
                    Ok(ps)
                } else {
                    match found(d, p, joined(out, d.name), out_name) {
                        Err(e) => Err(e),
                        Ok(qs) => Ok(ps + qs),
                    }
                }
            },
        }
    }
}

fn find_sites(dir: &SourceDir, path: &str, out: &str, out_name: &str) -> (r: Result<
    Vec<BuildPlan>,
    SiteError,
>)
    ensures
        match found(dir@, path@, out@, out_name@) {
            Ok(ps) => r matches Ok(v) && plans_view(v@) == ps,
            Err(e) => r matches Err(x) && x.dir@ == e.dir && x.kind == e.kind,
        },
    decreases dir,
{
    let own: Option<BuildPlan> = match &dir.sitefile {
        None => None,
        Some(text) => match Sitefile::from_text(path.to_owned(), text.as_str()) {
            Err(e) => {
                return Err(SiteError { dir: path.to_owned(), kind: e });
            },
            Ok(site) => Some(plan_site(path, out, &dir.files, site, out_name)),
        },
    };
    let ghost dv = dir@;
    let ghost ds = dv.dirs;
    let ghost own_v: Seq<PlanV> = if own is Some {
        seq![own->Some_0@]
    } else {
        seq![]
    };
    assert(found(dv, path@, out@, out_name@) == match found_all(ds, path@, out@, out_name@) {
        Err(e) => Err(e),
        Ok(ps) => Ok::<Seq<PlanV>, SiteErrV>(ps + own_v),
    });
    let mut subsites: Vec<BuildPlan> = Vec::new();
    let mut i: usize = 0;
    proof {
        assert forall|k: int| 0 <= k < dir.dirs@.len() implies decreases_to!(*dir => #[trigger] dir.dirs@[k]) by {
            assert(decreases_to!(*dir => dir.dirs));
            assert(decreases_to!(dir.dirs => dir.dirs@[k]));
        }
        assert(ds.subrange(0, 0) =~= Seq::<DirV>::empty());
        assert(plans_view(subsites@) =~= Seq::<PlanV>::empty());
    }
    while i < dir.dirs.len()
        invariant
            forall|k: int| 0 <= k < dir.dirs@.len() ==> decreases_to!(*dir => #[trigger] dir.dirs@[k]),
            dv == dir@,
            ds == dv.dirs,
            found(dv, path@, out@, out_name@) == match found_all(ds, path@, out@, out_name@) {
                Err(e) => Err(e),
                Ok(ps) => Ok::<Seq<PlanV>, SiteErrV>(ps + own_v),
            },
            i <= dir.dirs@.len(),
            found_all(ds.subrange(0, i as int), path@, out@, out_name@) == Ok::<Seq<PlanV>, SiteErrV>(
                plans_view(subsites@),
            ),
        decreases dir.dirs@.len() - i,
    {
        let sub = &dir.dirs[i];
        let ghost pre = ds.subrange(0, i + 1);
        assert(pre.subrange(0, pre.len() - 1) =~= ds.subrange(0, i as int));
        assert(pre[pre.len() - 1] == sub@);
        let sub_path = join_path(path, sub.name.as_str());
        if !same_text(sub_path.as_str(), out) {
            let sub_out = join_path(out, sub.name.as_str());
            match find_sites(sub, sub_path.as_str(), sub_out.as_str(), out_name) {
                Err(e) => {
                    proof {
                        let fe = found(sub@, sub_path@, sub_out@, out_name@);
                        assert(fe is Err);
                        assert(sub@.name == sub.name@);
                        assert(found_all(pre, path@, out@, out_name@) == fe);
                        lemma_found_all_failure_persists(ds, path@, out@, out_name@, i + 1);
                    }
                    return Err(e);
                },
                Ok(mut v) => {
                    let ghost before = plans_view(subsites@);
                    let ghost vv = plans_view(v@);
                    subsites.append(&mut v);
                    assert(plans_view(subsites@) =~= before + vv);
                },
            }
        }
        i = i + 1;
    }
    assert(ds.subrange(0, dir.dirs@.len() as int) =~= ds);
    if let Some(p) = own {
        let ghost before = plans_view(subsites@);
        subsites.push(p);
        assert(plans_view(subsites@) =~= before + own_v);
    } else {
        assert(plans_view(subsites@) =~= plans_view(subsites@) + own_v);
    }
    Ok(subsites)
}

proof fn lemma_found_all_failure_persists(
    ds: Seq<DirV>,
    path: Seq<char>,
    out: Seq<char>,
    out_name: Seq<char>,
    i: int,
)
    requires
        0 <= i <= ds.len(),
        found_all(ds.subrange(0, i), path, out, out_name) is Err,
    ensures
        found_all(ds, path, out, out_name) == found_all(ds.subrange(0, i), path, out, out_name),
    decreases ds.len() - i,
{
    if i == ds.len() {
        assert(ds.subrange(0, i) =~= ds);
    } else {
        let pre = ds.subrange(0, i + 1);
        assert(pre.subrange(0, pre.len() - 1) =~= ds.subrange(0, i));
        lemma_found_all_failure_persists(ds, path, out, out_name, i + 1);
    }
}

/// The plan of the whole project: create the output root, then the plans of all the
/// sites found in the source tree `tree`, which was read at the project's root.
pub fn plan_build(project: Project, tree: &SourceDir) -> (r: Result<BuildPlan, SiteError>)
    ensures
        match found(
            tree@,
            project.root_view(),
            project.output_view(),
            last_component(project.output_view()),
        ) {
            Ok(ps) => r matches Ok(p) && p@ == PlanV::Node(
                UnitV::CreateDir { path: project.output_view() },
                ps,
            ),
            Err(e) => r matches Err(x) && x.dir@ == e.dir && x.kind == e.kind,
        },
{
    let root = project.clone().root();
    let out = project.output_dir();
    let out_name = file_name(out.as_str());
    let sites = match find_sites(tree, root.as_str(), out.as_str(), out_name.as_str()) {
        Ok(v) => v,
        Err(e) => return Err(e),
    };
    let create_dir = CompilationUnit::CreateDir { path: out };
    Ok(BuildPlan::start_with(create_dir).and_then(sites))
}

} // verus!
