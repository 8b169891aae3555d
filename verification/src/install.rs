//! Where templates are kept and fetched from, and which source a project's template comes
//! from.

use vstd::prelude::*;
use vstd::string::StringExecFns;
use crate::names::join;
use crate::options::name_view;

verus! {

/// The environment variable that overrides the directory in which templates are kept.
pub const BEVY_TEMPLATE_DIR: &'static str = "BEVY_TEMPLATE_DIR";

/// The environment variable that overrides the address that descriptors are fetched from.
pub const BEVY_ASSETS_REPO: &'static str = "BEVY_ASSETS_REPO";

/// The address that descriptors are fetched from where nothing overrides it.
pub const DEFAULT_BEVY_ASSETS_REPO: &'static str =
    "https://raw.githubusercontent.com/bevyengine/bevy-assets/main/Assets/Templates";

/// The descriptor of a template: its name, and the address of the repository that holds it.
#[derive(Debug)]
pub struct Asset {
    pub name: String,
    pub link: String,
}

/// Where the template of a project comes from, as a mathematical value.
pub enum TemplateSourceView {
    Embedded,
    Archive(Seq<char>),
    Repository(Seq<char>),
}

/// Where the template of a project comes from.
#[derive(Debug)]
pub enum TemplateSource {
    /// The template that is built into the program.
    Embedded,
    /// The zip archive at this path.
    Archive(String),
    /// The repository at this path.
    Repository(String),
}

impl View for TemplateSource {
    type V = TemplateSourceView;

    open spec fn view(&self) -> TemplateSourceView {
        match self {
            TemplateSource::Embedded => TemplateSourceView::Embedded,
            TemplateSource::Archive(path) => TemplateSourceView::Archive(path@),
            TemplateSource::Repository(path) => TemplateSourceView::Repository(path@),
        }
    }
}

/// The directory in which templates are kept: the override, else `templates` below the data
/// directory of the platform, if there is one.
pub open spec fn templates_root(given: Option<Seq<char>>, data_dir: Option<Seq<char>>) -> Option<
    Seq<char>,
> {
    match given {
        Some(dir) => Some(dir),
        None => match data_dir {
            Some(dir) => Some(join(dir, "templates"@)),
            None => None,
        },
    }
}

/// The address that the descriptor of the template `name` is fetched from: `<base>/<name>.toml`.
pub open spec fn descriptor_address(base: Seq<char>, name: Seq<char>) -> Seq<char> {
    join(base, name) + ".toml"@
}

/// The path at which the repository of the template `name` is looked for, and cloned to.
pub open spec fn repository_path(root: Seq<char>, name: Seq<char>) -> Seq<char> {
    join(root, name)
}

/// The path at which the archive of the template `name` is looked for.
pub open spec fn archive_path(root: Seq<char>, name: Seq<char>) -> Seq<char> {
    join(root, name) + ".zip"@
}

/// The source of a project's template: the built-in template where none was chosen; else the
/// repository of that name, if one was found where templates are kept; else the archive of
/// that name.
pub open spec fn selected_source(
    chosen: Option<Seq<char>>,
    root: Seq<char>,
    repository_found: bool,
) -> TemplateSourceView {
    match chosen {
        None => TemplateSourceView::Embedded,
        Some(name) => if repository_found {
            TemplateSourceView::Repository(repository_path(root, name))
        } else {
            TemplateSourceView::Archive(archive_path(root, name))
        },
    }
}

/// Joins a directory and what lies in it by a slash.
pub fn join_path(dir: &str, rest: &str) -> (r: String)
    ensures
        r@ == join(dir@, rest@),
{
    proof {
        reveal_strlit("/");
    }
    dir.to_owned().concat("/").concat(rest)
}

/// Resolves the directory in which templates are kept from the value of the environment
/// variable, if it is set, and the data directory of the platform, if there is one.
pub fn templates_dir(given: Option<String>, data_dir: Option<String>) -> (r: Option<String>)
    ensures
        name_view(r) == templates_root(name_view(given), name_view(data_dir)),
{
    match given {
        Some(dir) => Some(dir),
        None => match data_dir {
            Some(dir) => Some(join_path(dir.as_str(), "templates")),
            None => None,
        },
    }
}

/// Resolves the address that descriptors are fetched from: the value of the environment
/// variable, if it is set, else the default.
pub fn assets_repo(given: Option<String>) -> (r: String)
    ensures
        r@ == match given {
            Some(base) => base@,
            None => DEFAULT_BEVY_ASSETS_REPO@,
        },
{
    match given {
        Some(base) => base,
        None => DEFAULT_BEVY_ASSETS_REPO.to_owned(),
    }
}

/// The address that the descriptor of the template `name` is fetched from.
pub fn descriptor_url(base: &str, name: &str) -> (r: String)
    ensures
        r@ == descriptor_address(base@, name@),
{
    join_path(base, name).concat(".toml")
}

/// The path at which the repository of a template is kept: `<root>/<name>`.
pub fn repository_dir(root: &str, name: &str) -> (r: String)
    ensures
        r@ == repository_path(root@, name@),
{
    join_path(root, name)
}

/// Selects the source of a project's template. `repository_found` tells whether a repository
/// was found at `repository_dir(root, name)` for the chosen name.
pub fn select_source(chosen: &Option<String>, root: &str, repository_found: bool) -> (r:
    TemplateSource)
    ensures
        r@ == selected_source(name_view(*chosen), root@, repository_found),
{
    match chosen {
        None => TemplateSource::Embedded,
        Some(name) => if repository_found {
            TemplateSource::Repository(join_path(root, name.as_str()))
        } else {
            TemplateSource::Archive(join_path(root, name.as_str()).concat(".zip"))
        },
    }
}

} // verus!
