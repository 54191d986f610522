//! Projects, per-directory site configuration, and development-server settings.
use vstd::prelude::*;

use crate::parser::{parse_sexp, parsed, sexprs_view, ConfigError, SExpV, SExpr};
use crate::text::{has_prefix, replace_all, replaced, same_text};

verus! {

/// The views of a sequence of strings.
pub open spec fn strings_view(v: Seq<String>) -> Seq<Seq<char>> {
    Seq::new(v.len(), |i: int| v[i]@)
}

/// A source root and the output root that mirrors it.
#[derive(Debug)]
pub struct Project {
    root: String,
    output_dir: String,
}

impl Clone for Project {
    fn clone(&self) -> (r: Project)
        ensures
            r == *self,
    {
        Project { root: self.root.clone(), output_dir: self.output_dir.clone() }
    }
}

impl Project {
    pub closed spec fn root_view(&self) -> Seq<char> {
        self.root@
    }

    pub closed spec fn output_view(&self) -> Seq<char> {
        self.output_dir@
    }

    pub fn output_dir(self) -> (r: String)
        ensures
            r@ == self.output_view(),
    {
        self.output_dir
    }

    pub fn root(self) -> (r: String)
        ensures
            r@ == self.root_view(),
    {
        self.root
    }

    /// The current directory as root, `./_public` as output.
    pub fn new() -> (r: Project)
        ensures
            r.root_view() == seq!['.'],
            r.output_view() == seq!['.', '/', '_', 'p', 'u', 'b', 'l', 'i', 'c'],
    {
        proof {
            reveal_strlit(".");
            reveal_strlit("./_public");
        }
        let r = Project { root: ".".to_owned(), output_dir: "./_public".to_owned() };
        assert(r.root_view() =~= seq!['.']);
        assert(r.output_view() =~= seq!['.', '/', '_', 'p', 'u', 'b', 'l', 'i', 'c']);
        r
    }

    pub fn with_root(self, root: String) -> (r: Project)
        ensures
            r.root_view() == root@,
            r.output_view() == self.output_view(),
    {
        Project { root, ..self }
    }

    pub fn with_output_dir(self, output_dir: String) -> (r: Project)
        ensures
            r.root_view() == self.root_view(),
            r.output_view() == output_dir@,
    {
        Project { output_dir, ..self }
    }
}

/// Mathematical form of a `Sitefile`.
pub struct SiteV {
    pub dir: Seq<char>,
    pub template: Option<Seq<char>>,
    pub assets: Option<Seq<Seq<char>>>,
}

/// The configuration of one site directory.
#[derive(Debug, Clone)]
pub struct Sitefile {
    dir: String,
    template: Option<String>,
    assets: Option<Vec<String>>,
}

/// The name of the file that marks a directory as a site.
pub open spec fn sitefile_name() -> Seq<char> {
    seq!['s', 'i', 't', 'e']
}

pub open spec fn opt_view(o: Option<String>) -> Option<Seq<char>> {
    match o {
        Some(s) => Some(s@),
        None => None,
    }
}

pub open spec fn opt_strings_view(o: Option<Vec<String>>) -> Option<Seq<Seq<char>>> {
    match o {
        Some(v) => Some(strings_view(v@)),
        None => None,
    }
}

/// A configuration atom with its quotes removed and a leading `./` stripped.
pub open spec fn cleaned(a: Seq<char>) -> Seq<char> {
    let q = replaced(a, seq!['"'], seq![]);
    if has_prefix(q, seq!['.', '/']) {
        q.subrange(2, q.len() as int)
    } else {
        q
    }
}

/// The text of an atom; a list counts as empty text.
pub open spec fn atom_text(e: SExpV) -> Seq<char> {
    match e {
        SExpV::Atom(a) => a,
        SExpV::List(_) => seq![],
    }
}

pub open spec fn assets_word() -> Seq<char> {
    seq!['a', 's', 's', 'e', 't', 's']
}

pub open spec fn template_word() -> Seq<char> {
    seq!['t', 'e', 'm', 'p', 'l', 'a', 't', 'e']
}

/// A template and an asset list, each present when a directive set it.
pub type Directives = (Option<Seq<char>>, Option<Seq<Seq<char>>>);

/// `cfg` after the directive `e`: `(assets a ...)` sets the asset list, `(template t)` the
/// template; any other list changes nothing. `None` for a template directive without a name.
pub open spec fn applied(e: SExpV, cfg: Directives) -> Option<Directives> {
    match e {
        SExpV::List(xs) => if xs.len() > 0 && xs[0] == SExpV::Atom(assets_word()) {
            Some((cfg.0, Some(Seq::new((xs.len() - 1) as nat, |i: int| cleaned(atom_text(xs[i + 1]))))))
        } else if xs.len() > 0 && xs[0] == SExpV::Atom(template_word()) {
            if xs.len() > 1 {
                Some((Some(cleaned(atom_text(xs[1]))), cfg.1))
            } else {
                None
            }
        } else {
            Some(cfg)
        },
        SExpV::Atom(_) => Some(cfg),
    }
}

/// The directives of `ls`, applied in order.
pub open spec fn configured(ls: Seq<SExpV>) -> Option<Directives>
    decreases ls.len(),
{
    if ls.len() == 0 {
        Some((None, None))
    } else {
        match configured(ls.drop_last()) {
            None => None,
            Some(c) => applied(ls.last(), c),
        }
    }
}

/// The configuration that the text `text` of the sitefile of `dir` gives.
pub open spec fn sitefile_of(dir: Seq<char>, text: Seq<char>) -> Result<SiteV, ConfigError> {
    match parsed(text) {
        None => Err(ConfigError::Syntax),
        Some(ls) => match configured(ls) {
            None => Err(ConfigError::MissingTemplateName),
            Some(c) => Ok(SiteV { dir, template: c.0, assets: c.1 }),
        },
    }
}

/// `a` with its quotes removed and a leading `./` stripped.
pub fn clean_atom(a: &str) -> (r: String)
    ensures
        r@ == cleaned(a@),
{
    proof {
        reveal_strlit("\"");
        reveal_strlit("");
        assert("\""@ =~= seq!['"']);
        assert(""@ =~= Seq::<char>::empty());
    }
    let q = replace_all(a, "\"", "");
    let n = q.as_str().unicode_len();
    if n >= 2 && q.as_str().get_char(0) == '.' && q.as_str().get_char(1) == '/' {
        assert(q@.subrange(0, 2) =~= seq!['.', '/']);
        q.as_str().substring_char(2, n).to_owned()
    } else {
        assert(has_prefix(q@, seq!['.', '/']) ==> q@.subrange(0, 2)[0] == '.' && q@.subrange(0, 2)[1] == '/');
        q
    }
}

proof fn lemma_config_failure_persists(ls: Seq<SExpV>, i: int)
    requires
        0 <= i <= ls.len(),
        configured(ls.subrange(0, i)) is None,
    ensures
        configured(ls) is None,
    decreases ls.len() - i,
{
    if i == ls.len() {
        assert(ls.subrange(0, i) =~= ls);
    } else {
        assert(ls.subrange(0, i + 1).drop_last() =~= ls.subrange(0, i));
        lemma_config_failure_persists(ls, i + 1);
    }
}

fn text_of(e: &SExpr) -> (r: String)
    ensures
        r@ == atom_text(e@),
{
    match e {
        SExpr::Atom(a) => a.clone(),
        SExpr::List(_) => String::new(),
    }
}

fn is_word(e: &SExpr, w: &str) -> (r: bool)
    ensures
        r == (e@ == SExpV::Atom(w@)),
{
    match e {
        SExpr::Atom(a) => same_text(a.as_str(), w),
        SExpr::List(_) => false,
    }
}

impl Sitefile {
    pub closed spec fn view(&self) -> SiteV {
        SiteV { dir: self.dir@, template: opt_view(self.template), assets: opt_strings_view(self.assets) }
    }

    pub fn assets(self) -> (r: Option<Vec<String>>)
        ensures
            opt_strings_view(r) == self@.assets,
    {
        self.assets
    }

    pub fn dir(self) -> (r: String)
        ensures
            r@ == self@.dir,
    {
        self.dir
    }

    pub fn template(self) -> (r: Option<String>)
        ensures
            opt_view(r) == self@.template,
    {
        self.template
    }

    /// The template and the asset list of this configuration.
    pub fn into_config(self) -> (r: (Option<String>, Option<Vec<String>>))
        ensures
            opt_view(r.0) == self@.template,
            opt_strings_view(r.1) == self@.assets,
    {
        (self.template, self.assets)
    }

    /// The name of the file that marks a directory as a site.
    pub fn name() -> (r: String)
        ensures
            r@ == sitefile_name(),
    {
        proof {
            reveal_strlit("site");
        }
        let r = "site".to_owned();
        assert(r@ =~= sitefile_name());
        r
    }

    /// The configuration of the site directory `dir`, read from its sitefile's text.
    pub fn from_text(dir: String, text: &str) -> (r: Result<Sitefile, ConfigError>)
        ensures
            r matches Ok(s) ==> sitefile_of(dir@, text@) == Ok::<SiteV, ConfigError>(s@),
            r matches Err(e) ==> sitefile_of(dir@, text@) == Err::<SiteV, ConfigError>(e),
    {
        let lists = match parse_sexp(text) {
            Ok(v) => v,
            Err(e) => return Err(e),
        };
        let ghost ls = sexprs_view(lists@);
        let mut template: Option<String> = None;
        let mut assets: Option<Vec<String>> = None;
        let mut i: usize = 0;
        proof {
            reveal_strlit("assets");
            reveal_strlit("template");
            assert("assets"@ =~= assets_word());
            assert("template"@ =~= template_word());
            assert(ls.subrange(0, 0) =~= Seq::<SExpV>::empty());
        }
        while i < lists.len()
            invariant
                ls == sexprs_view(lists@),
                parsed(text@) == Some(ls),
                i <= lists@.len(),
                "assets"@ == assets_word(),
                "template"@ == template_word(),
                configured(ls.subrange(0, i as int)) == Some::<Directives>((opt_view(template), opt_strings_view(assets))),
            decreases lists@.len() - i,
        {
            assert(ls.subrange(0, i + 1).drop_last() =~= ls.subrange(0, i as int));
            assert(ls.subrange(0, i + 1).last() == lists@[i as int]@);
            match &lists[i] {
                SExpr::List(xs) => {
                    let ghost xv = lists@[i as int]@->List_0;
                    assert(xv.len() == xs@.len());
                    assert(forall|k: int| 0 <= k < xs@.len() ==> #[trigger] xv[k] == xs@[k]@);
                    if xs.len() > 0 && is_word(&xs[0], "assets") {
                        let mut names: Vec<String> = Vec::new();
                        assert(strings_view(names@) =~= Seq::new(0, |j: int| cleaned(atom_text(xv[j + 1]))));
                        let mut k: usize = 1;
                        while k < xs.len()
                            invariant
                                1 <= k <= xs@.len(),
                                xv.len() == xs@.len(),
                                forall|j: int| 0 <= j < xs@.len() ==> #[trigger] xv[j] == xs@[j]@,
                                strings_view(names@) == Seq::new((k - 1) as nat, |j: int| cleaned(atom_text(xv[j + 1]))),
                            decreases xs@.len() - k,
                        {
                            assert(xv[k as int] == xs@[k as int]@);
                            let t = text_of(&xs[k]);
                            let c = clean_atom(t.as_str());
                            let ghost before = strings_view(names@);
                            names.push(c);
                            proof {
                                let f = |j: int| cleaned(atom_text(xv[j + 1]));
                                assert(strings_view(names@) =~= before.push(c@));
                                assert(Seq::new(k as nat, f) =~= Seq::new((k - 1) as nat, f).push(f(k - 1)));
                            }
                            k = k + 1;
                        }
                        assets = Some(names);
                    } else if xs.len() > 0 && is_word(&xs[0], "template") {
                        if xs.len() > 1 {
                            let t = text_of(&xs[1]);
                            template = Some(clean_atom(t.as_str()));
                        } else {
                            proof {
                                assert(xv[0] == xs@[0]@);
                                assert(ls[i as int] == SExpV::List(xv));
                                assert(applied(ls[i as int], (opt_view(template), opt_strings_view(assets))) is None);
                                assert(configured(ls.subrange(0, i + 1)) is None);
                                lemma_config_failure_persists(ls, i + 1);
                            }
                            return Err(ConfigError::MissingTemplateName);
                        }
                    }
                },
                SExpr::Atom(_) => {},
            }
            i = i + 1;
        }
        assert(ls.subrange(0, lists@.len() as int) =~= ls);
        Ok(Sitefile { dir, template, assets })
    }
}

/// Settings of the development server: the project it serves and its port.
#[derive(Debug, Clone)]
pub struct Server {
    project: Project,
    port: u16,
}

impl Server {
    pub closed spec fn project_view(&self) -> Project {
        self.project
    }

    pub closed spec fn port_view(&self) -> u16 {
        self.port
    }

    /// Serves `project` on port 4000.
    pub fn from_project(project: Project) -> (r: Server)
        ensures
            r.project_view() == project,
            r.port_view() == 4000,
    {
        Server { project, port: 4000 }
    }

    pub fn with_port(self, port: u16) -> (r: Server)
        ensures
            r.project_view() == self.project_view(),
            r.port_view() == port,
    {
        Server { port, ..self }
    }

    pub fn project(&self) -> (r: &Project)
        ensures
            *r == self.project_view(),
    {
        &self.project
    }

    pub fn port(&self) -> (r: u16)
        ensures
            r == self.port_view(),
    {
        self.port
    }
}

} // verus!
