//! The summary of a module: its core version constraints and its provider
//! requirements, and the errors that loading one can end in.
use vstd::prelude::*;
use crate::discovery::views;
use crate::document::{ExprView, Expression};

verus! {

/// A provider configuration by base name and alias.
#[derive(Debug, Clone)]
pub struct ProviderRef {
    pub name: String,
    pub alias: String,
}

impl ProviderRef {
    pub fn new(name: String, alias: String) -> (r: ProviderRef)
        ensures
            r.name == name,
            r.alias == alias,
    {
        ProviderRef { name, alias }
    }
}

/// What a module requires of one provider.
#[derive(Debug)]
pub struct ProviderRequirement {
    /// The provider's source address; empty while none was declared.
    pub source: String,
    /// Every version constraint declared, in declaration order.
    pub version_constraints: Vec<String>,
    /// Alternate configurations of the provider that the module asks for.
    pub configuration_aliases: Vec<ProviderRef>,
}

pub struct RequirementView {
    pub source: Seq<char>,
    pub versions: Seq<Seq<char>>,
    pub aliases: Seq<(Seq<char>, Seq<char>)>,
}

pub open spec fn ref_views(v: Seq<ProviderRef>) -> Seq<(Seq<char>, Seq<char>)> {
    v.map_values(|p: ProviderRef| (p.name@, p.alias@))
}

impl View for ProviderRequirement {
    type V = RequirementView;

    open spec fn view(&self) -> RequirementView {
        RequirementView {
            source: self.source@,
            versions: views(self.version_constraints@),
            aliases: ref_views(self.configuration_aliases@),
        }
    }
}

impl ProviderRequirement {
    pub fn new(source: String, version_constraints: Vec<String>) -> (r: ProviderRequirement)
        ensures
            r@ == (RequirementView {
                source: source@,
                versions: views(version_constraints@),
                aliases: Seq::empty(),
            }),
    {
        let r = ProviderRequirement {
            source,
            version_constraints,
            configuration_aliases: Vec::new(),
        };
        assert(ref_views(r.configuration_aliases@) =~= Seq::empty());
        r
    }
}

/// The requirements gathered from the files of one directory.
#[derive(Debug)]
pub struct Module {
    /// The directory the module was read from.
    pub path: String,
    /// The core version constraints, in the order the files declare them.
    pub required_core: Vec<String>,
    /// Each required provider under its name; no name occurs twice.
    pub required_providers: Vec<(String, ProviderRequirement)>,
}

pub struct ModuleView {
    pub path: Seq<char>,
    pub core: Seq<Seq<char>>,
    pub providers: Seq<(Seq<char>, RequirementView)>,
}

impl View for Module {
    type V = ModuleView;

    open spec fn view(&self) -> ModuleView {
        ModuleView {
            path: self.path@,
            core: views(self.required_core@),
            providers: self.required_providers@.map_values(
                |e: (String, ProviderRequirement)| (e.0@, e.1@),
            ),
        }
    }
}

/// No provider name occurs twice.
pub open spec fn names_unique(ps: Seq<(Seq<char>, RequirementView)>) -> bool {
    forall|i: int, j: int| 0 <= i < j < ps.len() ==> ps[i].0 != ps[j].0
}

/// The index of the first entry named `name`.
pub open spec fn position(ps: Seq<(Seq<char>, RequirementView)>, name: Seq<char>) -> Option<int> {
    if exists|i: int| 0 <= i < ps.len() && ps[i].0 == name {
        Some(
            choose|i: int|
                0 <= i < ps.len() && ps[i].0 == name && forall|j: int|
                    0 <= j < i ==> ps[j].0 != name,
        )
    } else {
        None
    }
}

impl ModuleView {
    pub open spec fn wf(self) -> bool {
        names_unique(self.providers)
    }

    /// The requirement recorded under `name`, if any.
    pub open spec fn provider(self, name: Seq<char>) -> Option<RequirementView> {
        match position(self.providers, name) {
            Some(i) => Some(self.providers[i].1),
            None => None,
        }
    }
}

pub proof fn lemma_position_first(ps: Seq<(Seq<char>, RequirementView)>, name: Seq<char>, i: int)
    requires
        0 <= i < ps.len(),
        ps[i].0 == name,
        forall|j: int| 0 <= j < i ==> ps[j].0 != name,
    ensures
        position(ps, name) == Some(i),
{
    let k = choose|k: int|
        0 <= k < ps.len() && ps[k].0 == name && forall|j: int| 0 <= j < k ==> ps[j].0 != name;
    assert(0 <= k < ps.len() && ps[k].0 == name);
    if k < i {
        assert(ps[k].0 != name);
    } else if k > i {
        assert(ps[i].0 != name);
    }
}

impl Module {
    /// An empty module for the directory at `path`.
    pub fn new(path: String) -> (r: Module)
        ensures
            r@ == (ModuleView { path: path@, core: Seq::empty(), providers: Seq::empty() }),
            r@.wf(),
    {
        let r = Module { path, required_core: Vec::new(), required_providers: Vec::new() };
        assert(views(r.required_core@) =~= Seq::empty());
        assert(r@.providers =~= Seq::empty());
        r
    }

    /// The index of the first provider entry named `name`.
    pub fn find_provider(&self, name: &str) -> (r: Option<usize>)
        ensures
            r matches Some(i) ==> i < self.required_providers.len() && position(
                self@.providers,
                name@,
            ) == Some(i as int),
            r is None ==> position(self@.providers, name@) is None,
    {
        let mut i: usize = 0;
        while i < self.required_providers.len()
            invariant
                i <= self.required_providers.len(),
                forall|j: int| 0 <= j < i ==> #[trigger] self@.providers[j].0 != name@,
            decreases self.required_providers.len() - i,
        {
            if crate::text::is_word(self.required_providers[i].0.as_str(), name) {
                proof {
                    lemma_position_first(self@.providers, name@, i as int);
                }
                return Some(i);
            }
            i += 1;
        }
        None
    }

    /// The requirement recorded for the provider `name`, if any.
    pub fn provider(&self, name: &str) -> (r: Option<&ProviderRequirement>)
        ensures
            r matches Some(p) ==> self@.provider(name@) == Some(p@),
            r is None ==> self@.provider(name@) is None,
    {
        match self.find_provider(name) {
            Some(i) => Some(&self.required_providers[i].1),
            None => None,
        }
    }
}

/// Why a module could not be loaded.
#[derive(Debug)]
pub enum Error {
    /// A file could not be read.
    Io(String),
    /// The parser failed for a reason other than the file's syntax.
    Other(String),
    /// A file's text is not valid configuration syntax.
    Parse(String),
    /// A provider requirement is not written as an object.
    UnexpectedExpr { attribute_key: String, expr: Expression, file_name: String },
    /// Two files declare different sources for one provider.
    ConflictingSource { provider: String, existing: String, found: String },
}

pub enum ErrorView {
    Io(Seq<char>),
    Other(Seq<char>),
    Parse(Seq<char>),
    UnexpectedExpr { attribute_key: Seq<char>, expr: ExprView, file_name: Seq<char> },
    ConflictingSource { provider: Seq<char>, existing: Seq<char>, found: Seq<char> },
}

impl View for Error {
    type V = ErrorView;

    open spec fn view(&self) -> ErrorView {
        match self {
            Error::Io(m) => ErrorView::Io(m@),
            Error::Other(m) => ErrorView::Other(m@),
            Error::Parse(m) => ErrorView::Parse(m@),
            Error::UnexpectedExpr { attribute_key, expr, file_name } => ErrorView::UnexpectedExpr {
                attribute_key: attribute_key@,
                expr: expr@,
                file_name: file_name@,
            },
            Error::ConflictingSource { provider, existing, found } => ErrorView::ConflictingSource {
                provider: provider@,
                existing: existing@,
                found: found@,
            },
        }
    }
}

} // verus!
