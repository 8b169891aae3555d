//! What a user may choose for a new project, and what each choice comes to when some are left
//! open.

use vstd::prelude::*;
use vstd::string::StringExecFns;
use crate::error::Failure;

verus! {

/// A license that a project can be put under.
#[derive(Clone, Copy, PartialEq, Eq, Structural, Debug)]
pub enum License {
    Other,
    Cc0,
    ApacheV2,
    Mit,
    GplV2,
    GplV3,
    /// Stands for "no license at all": where it is chosen, every other choice is dropped.
    NoLicense,
}

impl License {
    /// The license's identifier, as it stands in license expressions and file names.
    pub open spec fn id(self) -> Seq<char> {
        match self {
            License::ApacheV2 => "Apache-2.0"@,
            License::Mit => "MIT"@,
            License::Cc0 => "CC0-1.0"@,
            _ => "Other"@,
        }
    }

    /// The license's identifier.
    pub fn to_string(&self) -> (r: String)
        ensures
            r@ == self.id(),
    {
        match self {
            License::ApacheV2 => "Apache-2.0".to_owned(),
            License::Mit => "MIT".to_owned(),
            License::Cc0 => "CC0-1.0".to_owned(),
            _ => "Other".to_owned(),
        }
    }
}

/// A provider of continuous integration.
#[derive(Clone, Copy, PartialEq, Eq, Structural, Debug)]
pub enum ContinuousIntegration {
    Github,
    /// Stands for "no continuous integration": where it is chosen, every other choice is
    /// dropped.
    NoIntegration,
}

impl ContinuousIntegration {
    /// The directory that holds the provider's files among the built-in ones.
    pub open spec fn source_dir(self) -> Seq<char> {
        match self {
            ContinuousIntegration::Github => "github"@,
            ContinuousIntegration::NoIntegration => ""@,
        }
    }

    /// The directory of a project that the provider's files go to.
    pub open spec fn target_dir(self) -> Seq<char> {
        match self {
            ContinuousIntegration::Github => ".github"@,
            ContinuousIntegration::NoIntegration => ""@,
        }
    }

    /// The directory that holds the provider's files among the built-in ones, and the
    /// directory of a project that they go to.
    pub fn paths(&self) -> (r: (String, String))
        ensures
            r.0@ == self.source_dir(),
            r.1@ == self.target_dir(),
    {
        match self {
            ContinuousIntegration::Github => ("github".to_owned(), ".github".to_owned()),
            ContinuousIntegration::NoIntegration => ("".to_owned(), "".to_owned()),
        }
    }
}

/// A version control system.
#[derive(Clone, Copy, PartialEq, Eq, Structural, Debug)]
pub enum VersionControlSystem {
    Git,
    /// No version control.
    NoVcs,
}

/// What was chosen for a new project. Whatever is left open gets its default when the project
/// is made.
#[derive(Debug)]
pub struct ProjectOpts {
    /// The project's name; the name of the target directory where none is given.
    pub name: Option<String>,
    /// The licenses; Apache-2.0 and MIT where none is given.
    pub license: Vec<License>,
    /// The providers of continuous integration; GitHub where none is given.
    pub continuous_integration: Vec<ContinuousIntegration>,
    /// The name of an installed template; the built-in template where none is given.
    pub template: Option<String>,
    /// The version control system; git where none is given.
    pub vcs: Option<VersionControlSystem>,
}

impl Default for ProjectOpts {
    /// Everything left open.
    fn default() -> (r: ProjectOpts)
        ensures
            r.name is None,
            r.license@.len() == 0,
            r.continuous_integration@.len() == 0,
            r.template is None,
            r.vcs is None,
    {
        ProjectOpts {
            name: None,
            license: Vec::new(),
            continuous_integration: Vec::new(),
            template: None,
            vcs: None,
        }
    }
}

/// The licenses that a choice comes to: the two defaults where nothing was chosen, none where
/// `NoLicense` is among the chosen, else the chosen ones as they stand.
pub open spec fn effective_licenses(chosen: Seq<License>) -> Seq<License> {
    if chosen.len() == 0 {
        seq![License::ApacheV2, License::Mit]
    } else if chosen.contains(License::NoLicense) {
        Seq::empty()
    } else {
        chosen
    }
}

/// The providers that a choice comes to: GitHub where nothing was chosen, none where
/// `NoIntegration` is among the chosen, else the chosen ones as they stand.
pub open spec fn effective_providers(chosen: Seq<ContinuousIntegration>) -> Seq<
    ContinuousIntegration,
> {
    if chosen.len() == 0 {
        seq![ContinuousIntegration::Github]
    } else if chosen.contains(ContinuousIntegration::NoIntegration) {
        Seq::empty()
    } else {
        chosen
    }
}

/// The version control system that a choice comes to: git where nothing was chosen.
pub open spec fn effective_vcs(chosen: Option<VersionControlSystem>) -> VersionControlSystem {
    match chosen {
        Some(vcs) => vcs,
        None => VersionControlSystem::Git,
    }
}

/// The project name that a choice comes to: the chosen one, else the base name of the target
/// directory, if it has one.
pub open spec fn effective_name(chosen: Option<Seq<char>>, base: Option<Seq<char>>) -> Option<
    Seq<char>,
> {
    match chosen {
        Some(name) => Some(name),
        None => base,
    }
}

/// The identifiers of `licenses` joined by ` OR `: a license expression.
pub open spec fn license_expression(licenses: Seq<License>) -> Seq<char>
    decreases licenses.len(),
{
    if licenses.len() == 0 {
        Seq::empty()
    } else if licenses.len() == 1 {
        licenses[0].id()
    } else {
        license_expression(licenses.drop_last()) + " OR "@ + licenses.last().id()
    }
}

/// Resolves the licenses of a project.
pub fn resolve_licenses(chosen: &[License]) -> (r: Vec<License>)
    ensures
        r@ == effective_licenses(chosen@),
{
    let mut r: Vec<License> = Vec::new();
    if chosen.len() == 0 {
        r.push(License::ApacheV2);
        r.push(License::Mit);
        return r;
    }
    let mut i: usize = 0;
    while i < chosen.len()
        invariant
            i <= chosen.len(),
            r@ == chosen@.take(i as int),
            forall|j: int| 0 <= j < i ==> chosen@[j] != License::NoLicense,
        decreases chosen.len() - i,
    {
        if chosen[i] == License::NoLicense {
            return Vec::new();
        }
        r.push(chosen[i]);
        i = i + 1;
    }
    r
}

/// Resolves the providers of continuous integration of a project.
pub fn resolve_providers(chosen: &[ContinuousIntegration]) -> (r: Vec<ContinuousIntegration>)
    ensures
        r@ == effective_providers(chosen@),
{
    let mut r: Vec<ContinuousIntegration> = Vec::new();
    if chosen.len() == 0 {
        r.push(ContinuousIntegration::Github);
        return r;
    }
    let mut i: usize = 0;
    while i < chosen.len()
        invariant
            i <= chosen.len(),
            r@ == chosen@.take(i as int),
            forall|j: int| 0 <= j < i ==> chosen@[j] != ContinuousIntegration::NoIntegration,
        decreases chosen.len() - i,
    {
        if chosen[i] == ContinuousIntegration::NoIntegration {
            return Vec::new();
        }
        r.push(chosen[i]);
        i = i + 1;
    }
    r
}

/// Resolves the version control system of a project.
pub fn resolve_vcs(chosen: Option<VersionControlSystem>) -> (r: VersionControlSystem)
    ensures
        r == effective_vcs(chosen),
{
    match chosen {
        Some(vcs) => vcs,
        None => VersionControlSystem::Git,
    }
}

/// The view of a name that may be missing.
pub open spec fn name_view(name: Option<String>) -> Option<Seq<char>> {
    match name {
        Some(n) => Some(n@),
        None => None,
    }
}

/// Resolves the name of a project from the chosen name and the base name of the target
/// directory. Fails where neither is there.
pub fn resolve_name(chosen: &Option<String>, base: &Option<String>) -> (r: Result<String, Failure>)
    ensures
        match effective_name(name_view(*chosen), name_view(*base)) {
            Some(name) => r matches Ok(n) && n@ == name,
            None => r matches Err(Failure::InvalidProjectName),
        },
{
    match chosen {
        Some(name) => Ok(name.clone()),
        None => match base {
            Some(name) => Ok(name.clone()),
            None => Err(Failure::InvalidProjectName),
        },
    }
}

/// Writes the license expression of `licenses`: their identifiers joined by ` OR `.
pub fn join_licenses(licenses: &[License]) -> (r: String)
    ensures
        r@ == license_expression(licenses@),
{
    let mut r = String::new();
    let mut i: usize = 0;
    while i < licenses.len()
        invariant
            i <= licenses.len(),
            r@ == license_expression(licenses@.take(i as int)),
        decreases licenses.len() - i,
    {
        let ghost next = licenses@.take(i + 1 as int);
        assert(next.drop_last() =~= licenses@.take(i as int));
        let id = licenses[i].to_string();
        if i > 0 {
            r.append(" OR ");
        }
        r.append(id.as_str());
        i = i + 1;
    }
    assert(licenses@.take(licenses.len() as int) =~= licenses@);
    r
}

} // verus!
