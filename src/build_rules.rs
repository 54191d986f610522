//! Compilation units, the artifacts they produce, and the pure part of their effects.
use vstd::prelude::*;

use crate::text::{ends_with, has_suffix, replace_all, replaced};

verus! {

/// Mathematical form of a `CompilationUnit`: paths as character sequences.
pub enum UnitV {
    CreateDir { path: Seq<char> },
    CacheHit { unit: Box<UnitV> },
    Copy { input: Seq<char>, output: Seq<char> },
    Compile { input: Seq<char>, output: Seq<char> },
    Template { input: Seq<char>, output: Seq<char>, template: Seq<char> },
}

/// One planned filesystem operation, or a cached marker wrapping one.
#[derive(Debug)]
pub enum CompilationUnit {
    CreateDir { path: String },
    CacheHit { unit: Box<CompilationUnit> },
    Copy { input: String, output: String },
    Compile { input: String, output: String },
    Template { input: String, output: String, template: String },
}

impl CompilationUnit {
    pub open spec fn view(&self) -> UnitV
        decreases self,
    {
        match self {
            CompilationUnit::CreateDir { path } => UnitV::CreateDir { path: path@ },
            CompilationUnit::CacheHit { unit } => UnitV::CacheHit { unit: Box::new((**unit).view()) },
            CompilationUnit::Copy { input, output } => UnitV::Copy { input: input@, output: output@ },
            CompilationUnit::Compile { input, output } => UnitV::Compile {
                input: input@,
                output: output@,
            },
            CompilationUnit::Template { input, output, template } => UnitV::Template {
                input: input@,
                output: output@,
                template: template@,
            },
        }
    }

    /// An exact copy of this unit.
    pub fn duplicate(&self) -> (r: CompilationUnit)
        ensures
            r == *self,
        decreases self,
    {
        match self {
            CompilationUnit::CreateDir { path } => CompilationUnit::CreateDir { path: path.clone() },
            CompilationUnit::CacheHit { unit } => {
                let inner = (**unit).duplicate();
                CompilationUnit::CacheHit { unit: Box::new(inner) }
            },
            CompilationUnit::Copy { input, output } => CompilationUnit::Copy {
                input: input.clone(),
                output: output.clone(),
            },
            CompilationUnit::Compile { input, output } => CompilationUnit::Compile {
                input: input.clone(),
                output: output.clone(),
            },
            CompilationUnit::Template { input, output, template } => CompilationUnit::Template {
                input: input.clone(),
                output: output.clone(),
                template: template.clone(),
            },
        }
    }

    /// Structural equality of two units.
    pub fn same_as(&self, other: &CompilationUnit) -> (r: bool)
        ensures
            r == (self@ == other@),
        decreases self,
    {
        match self {
            CompilationUnit::CreateDir { path: a } => match other {
                CompilationUnit::CreateDir { path: b } => *a == *b,
                _ => false,
            },
            CompilationUnit::CacheHit { unit: a } => match other {
                CompilationUnit::CacheHit { unit: b } => (**a).same_as(&**b),
                _ => false,
            },
            CompilationUnit::Copy { input: a, output: b } => match other {
                CompilationUnit::Copy { input: c, output: d } => *a == *c && *b == *d,
                _ => false,
            },
            CompilationUnit::Compile { input: a, output: b } => match other {
                CompilationUnit::Compile { input: c, output: d } => *a == *c && *b == *d,
                _ => false,
            },
            CompilationUnit::Template { input: a, output: b, template: t } => match other {
                CompilationUnit::Template { input: c, output: d, template: u } => {
                    *a == *c && *b == *d && *t == *u
                },
                _ => false,
            },
        }
    }

    pub fn is_cache_hit(&self) -> (r: bool)
        ensures
            r == self@ is CacheHit,
    {
        match self {
            CompilationUnit::CacheHit { .. } => true,
            _ => false,
        }
    }
}

impl Clone for CompilationUnit {
    fn clone(&self) -> (r: CompilationUnit)
        ensures
            r == *self,
    {
        self.duplicate()
    }
}

impl PartialEq for CompilationUnit {
    fn eq(&self, other: &CompilationUnit) -> (r: bool) {
        self.same_as(other)
    }
}

impl vstd::std_specs::cmp::PartialEqSpecImpl for CompilationUnit {
    open spec fn obeys_eq_spec() -> bool {
        true
    }

    open spec fn eq_spec(&self, other: &CompilationUnit) -> bool {
        self@ == other@
    }
}

/// Mathematical form of an `Artifact`.
pub enum ArtifactV {
    File(Seq<char>),
    Nothing,
}

/// What executing one unit produced.
#[derive(Debug, Clone, PartialEq)]
pub enum Artifact {
    File(String),
    Nothing,
}

impl Artifact {
    pub open spec fn view(&self) -> ArtifactV {
        match self {
            Artifact::File(p) => ArtifactV::File(p@),
            Artifact::Nothing => ArtifactV::Nothing,
        }
    }
}

/// The artifact that a successful run of `u` reports.
pub open spec fn artifact_of(u: UnitV) -> ArtifactV {
    match u {
        UnitV::CreateDir { path } => ArtifactV::File(path),
        UnitV::CacheHit { .. } => ArtifactV::Nothing,
        UnitV::Copy { output, .. } => ArtifactV::File(output),
        UnitV::Compile { output, .. } => ArtifactV::File(output),
        UnitV::Template { output, .. } => ArtifactV::File(output),
    }
}

/// The artifact that a successful run of `unit` reports: the path it produced,
/// or nothing for a cache hit.
pub fn artifact_for(unit: &CompilationUnit) -> (r: Artifact)
    ensures
        r@ == artifact_of(unit@),
{
    match unit {
        CompilationUnit::CreateDir { path } => Artifact::File(path.clone()),
        CompilationUnit::CacheHit { .. } => Artifact::Nothing,
        CompilationUnit::Copy { output, .. } => Artifact::File(output.clone()),
        CompilationUnit::Compile { output, .. } => Artifact::File(output.clone()),
        CompilationUnit::Template { output, .. } => Artifact::File(output.clone()),
    }
}

/// The extension that marks a markdown document.
pub open spec fn markdown_ext() -> Seq<char> {
    seq!['.', 'm', 'd']
}

/// The placeholder that a template's title takes.
pub open spec fn title_placeholder() -> Seq<char> {
    seq!['{', '|', ' ', 't', 'i', 't', 'l', 'e', ' ', '|', '}']
}

/// The placeholder that a template's document body takes.
pub open spec fn document_placeholder() -> Seq<char> {
    seq!['{', '|', ' ', 'd', 'o', 'c', 'u', 'm', 'e', 'n', 't', ' ', '|', '}']
}

/// What comrak's HTML rendering of the markdown text `md` is, with default options.
pub uninterp spec fn markdown_html(md: Seq<char>) -> Seq<char>;

/// The text content of the first `<h1>` element of the HTML text `html`, if any.
pub uninterp spec fn first_heading_text(html: Seq<char>) -> Option<Seq<char>>;

/// Relies on comrak::markdown_to_html with default options: the HTML rendering of a
/// markdown text, which depends on the text alone.
#[verifier::external_body]
fn render_markdown(md: &str) -> (r: String)
    ensures
        r@ == markdown_html(md@),
{
    comrak::markdown_to_html(md, &comrak::Options::default())
}

/// Relies on nipper's `Document::from`, `select("h1")` and `Node::text`: the text of the
/// first `<h1>` element of an HTML text, which depends on the text alone.
#[verifier::external_body]
fn heading_text(html: &str) -> (r: Option<String>)
    ensures
        r matches Some(t) ==> first_heading_text(html@) == Some(t@),
        r is None ==> first_heading_text(html@) is None,
{
    let doc = nipper::Document::from(html);
    let sel = doc.select("h1");
    match sel.nodes().first() {
        Some(node) => Some(node.text().to_string()),
        None => None,
    }
}

/// The compiled form of a document read from `input`: markdown rendered to HTML,
/// any other text unchanged.
pub open spec fn compiled_text(input: Seq<char>, raw: Seq<char>) -> Seq<char> {
    if has_suffix(input, markdown_ext()) {
        markdown_html(raw)
    } else {
        raw
    }
}

/// The document text that compiling the file `input`, whose contents are `raw`, writes.
pub fn compile_document(input: &str, raw: &str) -> (r: String)
    ensures
        r@ == compiled_text(input@, raw@),
{
    proof {
        reveal_strlit(".md");
        assert(".md"@ =~= markdown_ext());
    }
    if ends_with(input, ".md") {
        render_markdown(raw)
    } else {
        raw.to_owned()
    }
}

/// A template with its title and document placeholders filled, title first.
pub open spec fn filled(template: Seq<char>, title: Seq<char>, document: Seq<char>) -> Seq<char> {
    replaced(
        replaced(template, title_placeholder(), title),
        document_placeholder(),
        document,
    )
}

/// Fills the title placeholder of `template` with `title`, then its document
/// placeholder with `document`.
pub fn fill_template(template: &str, title: &str, document: &str) -> (r: String)
    ensures
        r@ == filled(template@, title@, document@),
{
    proof {
        reveal_strlit("{| title |}");
        reveal_strlit("{| document |}");
        assert("{| title |}"@ =~= title_placeholder());
        assert("{| document |}"@ =~= document_placeholder());
    }
    let with_title = replace_all(template, "{| title |}", title);
    replace_all(with_title.as_str(), "{| document |}", document)
}

/// The title of a compiled document: the text of its first `<h1>`, or empty.
pub open spec fn title_of(document: Seq<char>) -> Seq<char> {
    match first_heading_text(document) {
        Some(t) => t,
        None => seq![],
    }
}

/// The text that applying `template` to the compiled `document` writes.
pub fn render_template(document: &str, template: &str) -> (r: String)
    ensures
        r@ == filled(template@, title_of(document@), document@),
{
    let title = match heading_text(document) {
        Some(t) => t,
        None => String::new(),
    };
    fill_template(template, title.as_str(), document)
}

} // verus!
