//! Making a project: what is to be written into the target directory, in which order, and how
//! far the work gets when something fails.
//!
//! Nothing here touches a directory. `plan_project` decides from plain values which files a
//! project gets. For each job whose bytes are the engine's to give, `engine_call` says which
//! call is owed; the program around the library makes the calls and hands in what they gave.
//! `render_plan` then takes the bytes of every job, and the program writes the files, in
//! order, and reports the failure that ended the work, if one did.

use vstd::prelude::*;
use vstd::slice::slice_to_vec;
use vstd::string::StringExecFns;
use crate::engine::{context_insert, context_new, context_values, engine_sources, no_values};
use crate::entry::{ContentView, EntryView};
use crate::error::Failure;
use crate::loader::{file_views, FileView, SourceFile};
use crate::names::{
    chars_of, is_reserved, is_under, lemma_component_valid, lemma_join_valid, lemma_tail_valid,
    lies_under, reroot, same_text, valid_name,
};
use crate::options::{
    effective_licenses, effective_name, effective_providers, effective_vcs, join_licenses,
    license_expression, name_view, resolve_licenses, resolve_name, resolve_providers, resolve_vcs,
    ContinuousIntegration, License, ProjectOpts, VersionControlSystem,
};
use crate::templater::{lookup, names_of, rendering_of, Rendering, Templater};
use vstd::string::StrSliceExecFns;

verus! {

/// What is known of the target directory before a project is made in it.
#[derive(Debug)]
pub struct Target {
    /// How many entries the directory holds; nothing where there is no such directory.
    pub entry_count: Option<usize>,
    /// The directory's base name, if it has one and it is text.
    pub base_name: Option<String>,
}

impl Target {
    /// Whether a project can be made in the directory: it is there and holds nothing.
    pub open spec fn ready(self) -> bool {
        self.entry_count == Some(0usize)
    }
}

/// How a file is to be opened for writing.
#[derive(Clone, Copy, PartialEq, Eq, Structural, Debug)]
pub enum WriteMode {
    /// The file must not exist yet: to find it there is an error.
    CreateNew,
    /// The file is written whether it exists or not.
    Replace,
    /// The file is written unless it exists; to find it there is no error.
    CreateIfAbsent,
}

/// Where the bytes of a planned file come from, as a mathematical value.
pub enum SourceView {
    Template(Seq<char>),
    Integration(Seq<char>),
    Literal(Seq<u8>),
}

/// Where the bytes of a planned file come from.
#[derive(Debug)]
pub enum Source {
    /// The entry of this name of the project's template, rendered.
    Template(String),
    /// The entry of this name of the built-in files for continuous integration, rendered.
    Integration(String),
    /// These bytes.
    Literal(Vec<u8>),
}

impl View for Source {
    type V = SourceView;

    open spec fn view(&self) -> SourceView {
        match self {
            Source::Template(name) => SourceView::Template(name@),
            Source::Integration(name) => SourceView::Integration(name@),
            Source::Literal(bytes) => SourceView::Literal(bytes@),
        }
    }
}

/// A planned file as a mathematical value.
pub struct JobView {
    pub path: Seq<char>,
    pub source: SourceView,
    pub mode: WriteMode,
}

/// A file that a project is to get: its path below the target directory, where its bytes come
/// from, and how it is to be opened.
#[derive(Debug)]
pub struct Job {
    pub path: String,
    pub source: Source,
    pub mode: WriteMode,
}

impl View for Job {
    type V = JobView;

    open spec fn view(&self) -> JobView {
        JobView { path: self.path@, source: self.source@, mode: self.mode }
    }
}

/// The jobs of a vector as mathematical values.
pub open spec fn job_views(jobs: Seq<Job>) -> Seq<JobView> {
    Seq::new(jobs.len(), |i: int| jobs[i]@)
}

/// A plan as a mathematical value.
pub struct PlanView {
    pub name: Seq<char>,
    pub license: Seq<char>,
    pub jobs: Seq<JobView>,
    pub failure: Option<Failure>,
    pub init_vcs: bool,
}

/// What making a project comes to, before anything is rendered or written.
#[derive(Debug)]
pub struct Plan {
    /// The project's name, for the variable `name`.
    pub name: String,
    /// The license expression, for the variable `license`.
    pub license: String,
    /// The files to write, in order.
    pub jobs: Vec<Job>,
    /// The failure that ends the work once the jobs are done, if planning met one.
    pub failure: Option<Failure>,
    /// Whether a repository is to be initialised at the end.
    pub init_vcs: bool,
}

impl View for Plan {
    type V = PlanView;

    open spec fn view(&self) -> PlanView {
        PlanView {
            name: self.name@,
            license: self.license@,
            jobs: job_views(self.jobs@),
            failure: self.failure,
            init_vcs: self.init_vcs,
        }
    }
}

/// Whether one of `jobs` writes `path`.
pub open spec fn path_taken(jobs: Seq<JobView>, path: Seq<char>) -> bool {
    exists|i: int| 0 <= i < jobs.len() && (#[trigger] jobs[i]).path == path
}

/// The jobs for the entries of a template: each entry is written under its own name, to a file
/// that must be new.
pub open spec fn template_jobs(names: Seq<Seq<char>>) -> Seq<JobView> {
    Seq::new(
        names.len(),
        |i: int|
            JobView {
                path: names[i],
                source: SourceView::Template(names[i]),
                mode: WriteMode::CreateNew,
            },
    )
}

/// The text of the license `id` among the built-in texts: that of the first file of that name.
pub open spec fn asset_of(assets: Seq<FileView>, id: Seq<char>) -> Option<Seq<u8>>
    decreases assets.len(),
{
    if assets.len() == 0 {
        None
    } else if assets[0].name == id {
        Some(assets[0].bytes)
    } else {
        asset_of(assets.drop_first(), id)
    }
}

/// The path of the file that holds the text of the license `id`.
pub open spec fn license_path(id: Seq<char>) -> Seq<char> {
    "LICENSE-"@ + id
}

/// `jobs` and, behind them, the jobs for `licenses`, with the first license that has no text,
/// if there is one. Each license gets a file named after it, which holds its text and replaces
/// what is there. The first license without a text ends the list.
pub open spec fn with_licenses(jobs: Seq<JobView>, licenses: Seq<License>, assets: Seq<FileView>) -> (
    Seq<JobView>,
    Option<License>,
)
    decreases licenses.len(),
{
    if licenses.len() == 0 {
        (jobs, None)
    } else {
        let (before, missing) = with_licenses(jobs, licenses.drop_last(), assets);
        if missing is Some {
            (before, missing)
        } else {
            match asset_of(assets, licenses.last().id()) {
                Some(text) => (
                    before.push(
                        JobView {
                            path: license_path(licenses.last().id()),
                            source: SourceView::Literal(text),
                            mode: WriteMode::Replace,
                        },
                    ),
                    None,
                ),
                None => (before, Some(licenses.last())),
            }
        }
    }
}

/// `jobs` and, behind them, the jobs for the files of one provider: each of `names` that lies
/// below `from` goes below `to`, unless a job writes that path already.
pub open spec fn with_provider(
    jobs: Seq<JobView>,
    from: Seq<char>,
    to: Seq<char>,
    names: Seq<Seq<char>>,
) -> Seq<JobView>
    decreases names.len(),
{
    if names.len() == 0 {
        jobs
    } else {
        let before = with_provider(jobs, from, to, names.drop_last());
        let name = names.last();
        if lies_under(name, from) && !path_taken(before, reroot(name, from, to)) {
            before.push(
                JobView {
                    path: reroot(name, from, to),
                    source: SourceView::Integration(name),
                    mode: WriteMode::CreateIfAbsent,
                },
            )
        } else {
            before
        }
    }
}

/// `jobs` and, behind them, the jobs for the files of `providers`, one provider after the
/// other.
pub open spec fn with_providers(
    jobs: Seq<JobView>,
    providers: Seq<ContinuousIntegration>,
    names: Seq<Seq<char>>,
) -> Seq<JobView>
    decreases providers.len(),
{
    if providers.len() == 0 {
        jobs
    } else {
        with_provider(
            with_providers(jobs, providers.drop_last(), names),
            providers.last().source_dir(),
            providers.last().target_dir(),
            names,
        )
    }
}

/// The plan for a project.
///
/// A target directory that is not there or holds anything ends the work before it starts, and
/// so does a project without a name. Else the entries of the template come first, then the license
/// files, then the files of the providers of continuous integration. A license without a text
/// ends the list there, and fails the work, by its name, once the files before it are written.
pub open spec fn planned(
    target: Target,
    opts: ProjectOpts,
    template: Seq<Seq<char>>,
    assets: Seq<FileView>,
    integration: Seq<Seq<char>>,
) -> PlanView {
    if !target.ready() {
        PlanView {
            name: Seq::empty(),
            license: Seq::empty(),
            jobs: Seq::empty(),
            failure: Some(Failure::DirectoryNotEmpty),
            init_vcs: false,
        }
    } else {
        match effective_name(name_view(opts.name), name_view(target.base_name)) {
            None => PlanView {
                name: Seq::empty(),
                license: Seq::empty(),
                jobs: Seq::empty(),
                failure: Some(Failure::InvalidProjectName),
                init_vcs: false,
            },
            Some(name) => {
                let licenses = effective_licenses(opts.license@);
                let (licensed, missing) = with_licenses(template_jobs(template), licenses, assets);
                if missing is Some {
                    PlanView {
                        name,
                        license: license_expression(licenses),
                        jobs: licensed,
                        failure: Some(Failure::UnknownLicense(missing->0)),
                        init_vcs: false,
                    }
                } else {
                    PlanView {
                        name,
                        license: license_expression(licenses),
                        jobs: with_providers(
                            licensed,
                            effective_providers(opts.continuous_integration@),
                            integration,
                        ),
                        failure: None,
                        init_vcs: effective_vcs(opts.vcs) == VersionControlSystem::Git,
                    }
                }
            },
        }
    }
}

/// Looks up the text of a license among the built-in texts.
pub fn find_asset<'a>(assets: &'a [SourceFile], id: &str) -> (r: Option<&'a SourceFile>)
    ensures
        match r {
            Some(file) => asset_of(file_views(assets@), id@) == Some(file.bytes@),
            None => asset_of(file_views(assets@), id@) is None,
        },
{
    let mut i: usize = 0;
    assert(file_views(assets@).skip(0) =~= file_views(assets@));
    while i < assets.len()
        invariant
            i <= assets.len(),
            asset_of(file_views(assets@), id@) == asset_of(file_views(assets@).skip(i as int), id@),
        decreases assets.len() - i,
    {
        let ghost rest = file_views(assets@).skip(i as int);
        assert(rest[0] == assets@[i as int]@);
        assert(rest.drop_first() =~= file_views(assets@).skip(i + 1 as int));
        if same_text(assets[i].name.as_str(), id) {
            return Some(&assets[i]);
        }
        i = i + 1;
    }
    None
}

/// Tells whether one of `jobs` writes `path`.
pub fn is_taken(jobs: &Vec<Job>, path: &str) -> (r: bool)
    ensures
        r == path_taken(job_views(jobs@), path@),
{
    let mut i: usize = 0;
    while i < jobs.len()
        invariant
            i <= jobs.len(),
            forall|j: int| 0 <= j < i ==> (#[trigger] job_views(jobs@)[j]).path != path@,
        decreases jobs.len() - i,
    {
        if same_text(jobs[i].path.as_str(), path) {
            assert(job_views(jobs@)[i as int].path == path@);
            return true;
        }
        i = i + 1;
    }
    false
}

/// Moves the entry `name` from below `from` to below `to`, if it lies below `from`.
pub fn reroot_name(name: &str, from: &str, to: &str) -> (r: Option<String>)
    ensures
        match r {
            Some(path) => lies_under(name@, from@) && path@ == reroot(name@, from@, to@),
            None => !lies_under(name@, from@),
        },
{
    let name_chars = chars_of(name);
    let from_chars = chars_of(from);
    if !is_under(name_chars.as_slice(), from_chars.as_slice()) {
        return None;
    }
    assert(from_chars.len() + 1 < name_chars.len());
    let rest = name.substring_char(from_chars.len() + 1, name_chars.len());
    proof {
        reveal_strlit("/");
    }
    Some(to.to_owned().concat("/").concat(rest))
}

/// Appends the jobs for the files of one provider.
fn plan_provider(jobs: &mut Vec<Job>, provider: ContinuousIntegration, names: &Vec<String>)
    ensures
        job_views(final(jobs)@) == with_provider(
            job_views(old(jobs)@),
            provider.source_dir(),
            provider.target_dir(),
            names.deep_view(),
        ),
{
    let (from, to) = provider.paths();
    let mut i: usize = 0;
    assert(names.deep_view().take(0) =~= Seq::empty());
    while i < names.len()
        invariant
            i <= names.len(),
            from@ == provider.source_dir(),
            to@ == provider.target_dir(),
            job_views(jobs@) == with_provider(
                job_views(old(jobs)@),
                from@,
                to@,
                names.deep_view().take(i as int),
            ),
        decreases names.len() - i,
    {
        let ghost next = names.deep_view().take(i + 1 as int);
        assert(next.drop_last() =~= names.deep_view().take(i as int));
        assert(next.last() == names@[i as int]@);
        match reroot_name(names[i].as_str(), from.as_str(), to.as_str()) {
            Some(path) => {
                if !is_taken(jobs, path.as_str()) {
                    let ghost before = job_views(jobs@);
                    let job = Job {
                        path,
                        source: Source::Integration(names[i].clone()),
                        mode: WriteMode::CreateIfAbsent,
                    };
                    jobs.push(job);
                    assert(job_views(jobs@) =~= before.push(job@));
                }
            },
            None => {},
        }
        i = i + 1;
    }
    assert(names.deep_view().take(names.len() as int) =~= names.deep_view());
}

/// Plans a project: decides, from what is known of the target directory, from what was chosen
/// and from the names at hand, which files the project gets.
///
/// `template` holds the names of the entries of the project's template, `assets` the built-in
/// license texts, each under the identifier of its license, and `integration` the names of the
/// built-in files for continuous integration.
pub fn plan_project(
    target: &Target,
    opts: &ProjectOpts,
    template: &Vec<String>,
    assets: &[SourceFile],
    integration: &Vec<String>,
) -> (plan: Plan)
    ensures
        plan@ == planned(
            *target,
            *opts,
            template.deep_view(),
            file_views(assets@),
            integration.deep_view(),
        ),
{
    let mut jobs: Vec<Job> = Vec::new();
    let ready = match target.entry_count {
        Some(count) => count == 0,
        None => false,
    };
    if !ready {
        assert(job_views(jobs@) =~= Seq::empty());
        return Plan {
            name: String::new(),
            license: String::new(),
            jobs,
            failure: Some(Failure::DirectoryNotEmpty),
            init_vcs: false,
        };
    }
    let name = match resolve_name(&opts.name, &target.base_name) {
        Ok(name) => name,
        Err(e) => {
            assert(job_views(jobs@) =~= Seq::empty());
            return Plan {
                name: String::new(),
                license: String::new(),
                jobs,
                failure: Some(Failure::InvalidProjectName),
                init_vcs: false,
            };
        },
    };
    let licenses = resolve_licenses(opts.license.as_slice());
    let providers = resolve_providers(opts.continuous_integration.as_slice());
    let license = join_licenses(licenses.as_slice());

    let mut i: usize = 0;
    while i < template.len()
        invariant
            i <= template.len(),
            jobs@.len() == i,
            forall|j: int| 0 <= j < i ==> (#[trigger] jobs@[j])@ == template_jobs(template.deep_view())[j],
        decreases template.len() - i,
    {
        jobs.push(
            Job {
                path: template[i].clone(),
                source: Source::Template(template[i].clone()),
                mode: WriteMode::CreateNew,
            },
        );
        i = i + 1;
    }
    assert(job_views(jobs@) =~= template_jobs(template.deep_view()));

    let mut k: usize = 0;
    assert(licenses@.take(0) =~= Seq::empty());
    while k < licenses.len()
        invariant
            k <= licenses.len(),
            target.ready(),
            effective_name(name_view(opts.name), name_view(target.base_name)) == Some(name@),
            licenses@ == effective_licenses(opts.license@),
            license@ == license_expression(licenses@),
            with_licenses(
                template_jobs(template.deep_view()),
                licenses@.take(k as int),
                file_views(assets@),
            ) == (job_views(jobs@), None::<License>),
        decreases licenses.len() - k,
    {
        let ghost next = licenses@.take(k + 1 as int);
        assert(next.drop_last() =~= licenses@.take(k as int));
        assert(next.last() == licenses@[k as int]);
        let id = licenses[k].to_string();
        match find_asset(assets, id.as_str()) {
            Some(file) => {
                let ghost before = job_views(jobs@);
                let job = Job {
                    path: "LICENSE-".to_owned().concat(id.as_str()),
                    source: Source::Literal(slice_to_vec(file.bytes.as_slice())),
                    mode: WriteMode::Replace,
                };
                jobs.push(job);
                assert(job_views(jobs@) =~= before.push(job@));
            },
            None => {
                proof {
                    assert(with_licenses(
                        template_jobs(template.deep_view()),
                        next,
                        file_views(assets@),
                    ) == (job_views(jobs@), Some(licenses@[k as int])));
                    lemma_licenses_stop(
                        template_jobs(template.deep_view()),
                        licenses@,
                        file_views(assets@),
                        k + 1 as int,
                    );
                }
                return Plan {
                    name,
                    license,
                    jobs,
                    failure: Some(Failure::UnknownLicense(licenses[k])),
                    init_vcs: false,
                };
            },
        }
        k = k + 1;
    }
    assert(licenses@.take(licenses.len() as int) =~= licenses@);

    let ghost licensed = job_views(jobs@);
    let mut p: usize = 0;
    assert(providers@.take(0) =~= Seq::empty());
    while p < providers.len()
        invariant
            p <= providers.len(),
            job_views(jobs@) == with_providers(
                licensed,
                providers@.take(p as int),
                integration.deep_view(),
            ),
        decreases providers.len() - p,
    {
        let ghost next = providers@.take(p + 1 as int);
        assert(next.drop_last() =~= providers@.take(p as int));
        assert(next.last() == providers@[p as int]);
        plan_provider(&mut jobs, providers[p], integration);
        p = p + 1;
    }
    assert(providers@.take(providers.len() as int) =~= providers@);
    let init_vcs = match resolve_vcs(opts.vcs) {
        VersionControlSystem::Git => true,
        VersionControlSystem::NoVcs => false,
    };
    Plan { name, license, jobs, failure: None, init_vcs }
}

/// A list of license jobs that ended early on the first `n` licenses ends the same way on all
/// of them.
pub proof fn lemma_licenses_stop(
    jobs: Seq<JobView>,
    licenses: Seq<License>,
    assets: Seq<FileView>,
    n: int,
)
    requires
        0 <= n <= licenses.len(),
        with_licenses(jobs, licenses.take(n), assets).1 is Some,
    ensures
        with_licenses(jobs, licenses, assets) == with_licenses(jobs, licenses.take(n), assets),
    decreases licenses.len() - n,
{
    if n == licenses.len() {
        assert(licenses.take(n) =~= licenses);
    } else {
        assert(licenses.take(n + 1).drop_last() =~= licenses.take(n));
        lemma_licenses_stop(jobs, licenses, assets, n + 1);
    }
}

/// A file to write, as a mathematical value.
pub struct FileWriteView {
    pub path: Seq<char>,
    pub content: Seq<u8>,
    pub mode: WriteMode,
}

/// A file to write: its path below the target directory, its bytes, and how it is to be opened.
#[derive(Debug)]
pub struct FileWrite {
    pub path: String,
    pub content: Vec<u8>,
    pub mode: WriteMode,
}

impl View for FileWrite {
    type V = FileWriteView;

    open spec fn view(&self) -> FileWriteView {
        FileWriteView { path: self.path@, content: self.content@, mode: self.mode }
    }
}

/// The writes of a vector as mathematical values.
pub open spec fn write_views(writes: Seq<FileWrite>) -> Seq<FileWriteView> {
    Seq::new(writes.len(), |i: int| writes[i]@)
}

/// What making a project came to: the files to write into the target directory, in order; the
/// failure to report once they are written, if the work was ended early; and whether a
/// repository is to be initialised at the end.
#[derive(Debug)]
pub struct Materialization {
    pub writes: Vec<FileWrite>,
    pub failure: Option<Failure>,
    pub init_vcs: bool,
}

/// What a job renders: the entry that it names, or its own bytes.
pub open spec fn job_content(
    job: JobView,
    template: Seq<EntryView>,
    integration: Seq<EntryView>,
) -> Option<ContentView> {
    match job.source {
        SourceView::Template(name) => lookup(template, name),
        SourceView::Integration(name) => lookup(integration, name),
        SourceView::Literal(bytes) => Some(ContentView::Binary(bytes)),
    }
}

/// Whether the bytes of `job` are the engine's to give: the job names a text entry that holds
/// a substitution marker.
pub open spec fn owes_engine(job: JobView, template: Seq<EntryView>, integration: Seq<EntryView>) -> bool {
    job_content(job, template, integration) matches Some(content) && rendering_of(content)
        == Rendering::EngineOwed
}

/// What the engine handed in for job `i`: nothing where the answers end before it.
pub open spec fn answer_at(answers: Seq<Option<Result<Vec<u8>, Failure>>>, i: int) -> Option<
    Result<Vec<u8>, Failure>,
> {
    if 0 <= i < answers.len() {
        answers[i]
    } else {
        None
    }
}

/// The bytes that a job comes to, or how it fails.
///
/// A job that names an entry that is not there fails. Binary content and text without a
/// substitution marker give their own bytes. Text with a marker gives what the engine handed
/// in for it: the bytes, or the failure; where nothing was handed in, the job fails.
pub open spec fn job_bytes(
    job: JobView,
    template: Seq<EntryView>,
    integration: Seq<EntryView>,
    answer: Option<Result<Vec<u8>, Failure>>,
) -> Result<Seq<u8>, Failure> {
    match job_content(job, template, integration) {
        None => Err(Failure::TemplateNotFound),
        Some(content) => match rendering_of(content) {
            Rendering::Written => Ok(content.bytes()),
            Rendering::EngineOwed => match answer {
                Some(Ok(bytes)) => Ok(bytes@),
                Some(Err(e)) => Err(e),
                None => Err(Failure::NotRendered),
            },
        },
    }
}

/// The file that `job` asks for, with `bytes` in it.
pub open spec fn write_for(job: JobView, bytes: Seq<u8>) -> FileWriteView {
    FileWriteView { path: job.path, content: bytes, mode: job.mode }
}

/// Whether `r` is `expected`, bytes by their view.
pub open spec fn gives(r: Result<Vec<u8>, Failure>, expected: Result<Seq<u8>, Failure>) -> bool {
    match expected {
        Ok(bytes) => r matches Ok(v) && v@ == bytes,
        Err(e) => r matches Err(f) && f == e,
    }
}

/// Whether `m` is what carrying out `plan` comes to, with `answers` from the engine, one for
/// each job by its place.
///
/// The writes follow the jobs one by one, each with the bytes that its job comes to. Either
/// every job has its write, and the failure and the repository are as planned; or the writes
/// end before the first job that fails, the failure is that job's, and no repository is
/// initialised. Nothing else is left open: there is one such `m`.
pub open spec fn carried_out(
    plan: PlanView,
    template: Seq<EntryView>,
    integration: Seq<EntryView>,
    answers: Seq<Option<Result<Vec<u8>, Failure>>>,
    m: Materialization,
) -> bool {
    let done = m.writes@.len();
    &&& done <= plan.jobs.len()
    &&& forall|i: int|
        0 <= i < done ==> job_bytes(plan.jobs[i], template, integration, answer_at(answers, i))
            == Ok::<Seq<u8>, Failure>((#[trigger] m.writes@[i])@.content) && m.writes@[i]@
            == write_for(plan.jobs[i], m.writes@[i]@.content)
    &&& if done == plan.jobs.len() {
        m.failure == plan.failure && m.init_vcs == plan.init_vcs
    } else {
        &&& !m.init_vcs
        &&& m.failure matches Some(e) && job_bytes(
            plan.jobs[done as int],
            template,
            integration,
            answer_at(answers, done as int),
        ) == Err::<Seq<u8>, Failure>(e)
    }
}

/// The variables that the files of a project are rendered with.
pub open spec fn project_values(name: Seq<char>, license: Seq<char>) -> Map<Seq<char>, Seq<char>> {
    no_values().insert("name"@, name).insert("license"@, license)
}

/// Builds the context that the files of a project are rendered with: the project's name under
/// `name`, its license expression under `license`.
pub fn build_context(name: &str, license: &str) -> (c: tera::Context)
    ensures
        context_values(c) == project_values(name@, license@),
{
    let mut c = context_new();
    context_insert(&mut c, "name", name);
    context_insert(&mut c, "license", license);
    c
}

/// Builds the context that the engine is to be given for the jobs of `plan`: the plan's name
/// under `name`, its license expression under `license`.
pub fn plan_context(plan: &Plan) -> (c: tera::Context)
    ensures
        context_values(c) == project_values(plan@.name, plan@.license),
{
    build_context(plan.name.as_str(), plan.license.as_str())
}

/// A failure like `f`.
pub fn copy_failure(f: &Failure) -> (r: Failure)
    ensures
        r == *f,
{
    match f {
        Failure::DirectoryNotEmpty => Failure::DirectoryNotEmpty,
        Failure::InvalidProjectName => Failure::InvalidProjectName,
        Failure::TemplateNotFound => Failure::TemplateNotFound,
        Failure::NotRendered => Failure::NotRendered,
        Failure::UnknownLicense(license) => Failure::UnknownLicense(*license),
        Failure::MalformedArchiveEntry => Failure::MalformedArchiveEntry,
        Failure::RepositoryFailure => Failure::RepositoryFailure,
        Failure::UnreadableArchive(message) => Failure::UnreadableArchive(message.clone()),
        Failure::InvalidTemplate(message) => Failure::InvalidTemplate(message.clone()),
        Failure::RenderFailure(message) => Failure::RenderFailure(message.clone()),
    }
}

/// The call that the engine is owed for `job`, if one is: the engine to ask and the name of the
/// template to render. The program around the library makes the call, with the context that
/// `plan_context` builds for the plan, and hands the output in by the job's place.
pub fn engine_call<'a>(job: &'a Job, template: &'a Templater, integration: &'a Templater) -> (r:
    Option<(&'a tera::Tera, &'a str)>)
    requires
        template.wf(),
        integration.wf(),
    ensures
        r is Some <==> owes_engine(job@, template@.entries, integration@.entries),
        r matches Some(call) ==> match job@.source {
            SourceView::Template(name) => call.1@ == name && engine_sources(*call.0)
                == template@.engine,
            SourceView::Integration(name) => call.1@ == name && engine_sources(*call.0)
                == integration@.engine,
            SourceView::Literal(_) => false,
        },
{
    match &job.source {
        Source::Template(entry) => if template.owes_engine(entry.as_str()) {
            Some((template.engine(), entry.as_str()))
        } else {
            None
        },
        Source::Integration(entry) => if integration.owes_engine(entry.as_str()) {
            Some((integration.engine(), entry.as_str()))
        } else {
            None
        },
        Source::Literal(_) => None,
    }
}

/// The bytes that the entry `entry` of `store` comes to, with `answer` from the engine.
fn entry_bytes(
    store: &Templater,
    entry: &str,
    context: &tera::Context,
    answer: &Option<Result<Vec<u8>, Failure>>,
) -> (r: Result<Vec<u8>, Failure>)
    requires
        store.wf(),
    ensures
        gives(
            r,
            match lookup(store@.entries, entry@) {
                None => Err(Failure::TemplateNotFound),
                Some(content) => match rendering_of(content) {
                    Rendering::Written => Ok(content.bytes()),
                    Rendering::EngineOwed => match *answer {
                        Some(Ok(bytes)) => Ok(bytes@),
                        Some(Err(e)) => Err(e),
                        None => Err(Failure::NotRendered),
                    },
                },
            },
        ),
{
    let mut content: Vec<u8> = Vec::new();
    match store.render_to(entry, context, &mut content) {
        Err(e) => Err(e),
        Ok(Rendering::Written) => {
            assert(Seq::<u8>::empty() + content@ =~= content@);
            Ok(content)
        },
        Ok(Rendering::EngineOwed) => match answer {
            Some(Ok(bytes)) => Ok(slice_to_vec(bytes.as_slice())),
            Some(Err(e)) => Err(copy_failure(e)),
            None => Err(Failure::NotRendered),
        },
    }
}

/// The file that a job comes to, from the bytes that it rendered to or the failure that ended
/// its rendering.
pub fn write_of(job: &Job, rendered: Result<Vec<u8>, Failure>) -> (r: Result<FileWrite, Failure>)
    ensures
        match rendered {
            Ok(bytes) => r matches Ok(w) && w@ == write_for(job@, bytes@),
            Err(e) => r == Err::<FileWrite, Failure>(e),
        },
{
    match rendered {
        Ok(content) => Ok(FileWrite { path: job.path.clone(), content, mode: job.mode }),
        Err(e) => Err(e),
    }
}

/// Carries out a plan as far as it goes without touching a directory or asking the engine:
/// takes the bytes of each job, in order, and stops at the first job that fails.
///
/// `answers` holds what the engine gave for the jobs that owe it a call (see `engine_call`),
/// each at the place of its job; the other places hold nothing.
pub fn render_plan(
    plan: Plan,
    template: &Templater,
    integration: &Templater,
    answers: &[Option<Result<Vec<u8>, Failure>>],
) -> (m: Materialization)
    requires
        template.wf(),
        integration.wf(),
    ensures
        carried_out(plan@, template@.entries, integration@.entries, answers@, m),
{
    let ghost asked = plan@;
    let Plan { name, license, jobs, failure, init_vcs } = plan;
    let context = build_context(name.as_str(), license.as_str());
    let nothing: Option<Result<Vec<u8>, Failure>> = None;
    let mut writes: Vec<FileWrite> = Vec::new();
    let mut i: usize = 0;
    while i < jobs.len()
        invariant
            i <= jobs.len(),
            template.wf(),
            integration.wf(),
            nothing is None,
            asked == plan@,
            asked.jobs == job_views(jobs@),
            writes@.len() == i,
            forall|j: int|
                0 <= j < i ==> job_bytes(
                    asked.jobs[j],
                    template@.entries,
                    integration@.entries,
                    answer_at(answers@, j),
                ) == Ok::<Seq<u8>, Failure>((#[trigger] writes@[j])@.content) && writes@[j]@
                    == write_for(asked.jobs[j], writes@[j]@.content),
        decreases jobs.len() - i,
    {
        let job = &jobs[i];
        assert(job_views(jobs@)[i as int] == job@);
        let answer = if i < answers.len() {
            &answers[i]
        } else {
            &nothing
        };
        let rendered = match &job.source {
            Source::Template(entry) => entry_bytes(template, entry.as_str(), &context, answer),
            Source::Integration(entry) => entry_bytes(integration, entry.as_str(), &context, answer),
            Source::Literal(bytes) => Ok(slice_to_vec(bytes.as_slice())),
        };
        match write_of(job, rendered) {
            Ok(write) => {
                writes.push(write);
            },
            Err(e) => {
                return Materialization { writes, failure: Some(e), init_vcs: false };
            },
        }
        i = i + 1;
    }
    Materialization { writes, failure, init_vcs }
}

/// Makes a project, as far as that can be done without touching a directory or asking the
/// engine: plans the files from what is known of the target directory and what was chosen,
/// and takes their bytes.
///
/// `template` is the project's template, `assets` holds the built-in license texts, each under
/// the identifier of its license, `integration` the built-in files for continuous integration,
/// and `answers` what the engine gave for the jobs of the plan that owe it a call, each at the
/// place of its job. The writes that come back are to be carried out in order; the failure, if
/// there is one, is to be reported after them; only where there is none is a repository to be
/// initialised, if the result says so.
pub fn init_project(
    target: &Target,
    opts: &ProjectOpts,
    template: &Templater,
    assets: &[SourceFile],
    integration: &Templater,
    answers: &[Option<Result<Vec<u8>, Failure>>],
) -> (m: Materialization)
    requires
        template.wf(),
        integration.wf(),
    ensures
        carried_out(
            planned(
                *target,
                *opts,
                names_of(template@.entries),
                file_views(assets@),
                names_of(integration@.entries),
            ),
            template@.entries,
            integration@.entries,
            answers@,
            m,
        ),
        !target.ready() ==> m.writes@.len() == 0 && m.failure == Some(
            Failure::DirectoryNotEmpty,
        ) && !m.init_vcs,
        forall|i: int| 0 <= i < m.writes@.len() ==> valid_name((#[trigger] m.writes@[i])@.path),
{
    let template_names = template.get_template_names();
    let integration_names = integration.get_template_names();
    let plan = plan_project(target, opts, &template_names, assets, &integration_names);
    proof {
        let names = names_of(template@.entries);
        let built_in = names_of(integration@.entries);
        assert forall|i: int| 0 <= i < names.len() implies valid_name(#[trigger] names[i]) by {
            assert(valid_name(template@.entries[i].name));
        }
        assert forall|i: int| 0 <= i < built_in.len() implies valid_name(
            #[trigger] built_in[i],
        ) by {
            assert(valid_name(integration@.entries[i].name));
        }
        lemma_planned_paths_valid(*target, *opts, names, file_views(assets@), built_in);
    }
    let m = render_plan(plan, template, integration, answers);
    assert forall|i: int| 0 <= i < m.writes@.len() implies valid_name(
        (#[trigger] m.writes@[i])@.path,
    ) by {
        assert(m.writes@[i]@.path == plan@.jobs[i].path);
    }
    m
}

/// Whether `job` is the job for one of `names` that lies below `from`, moved below `to`.
pub open spec fn moves_one(job: JobView, from: Seq<char>, to: Seq<char>, names: Seq<Seq<char>>) -> bool {
    exists|k: int|
        0 <= k < names.len() && lies_under(#[trigger] names[k], from) && job == (JobView {
            path: reroot(names[k], from, to),
            source: SourceView::Integration(names[k]),
            mode: WriteMode::CreateIfAbsent,
        })
}

/// The jobs for one provider come behind the jobs that were there, which stay as they are.
/// Each of them moves one of the provider's files to the provider's directory in the project,
/// and writes a path that no job before it writes: what is there is never written again.
pub proof fn lemma_provider_jobs(
    jobs: Seq<JobView>,
    from: Seq<char>,
    to: Seq<char>,
    names: Seq<Seq<char>>,
)
    ensures
        jobs.len() <= with_provider(jobs, from, to, names).len(),
        with_provider(jobs, from, to, names).take(jobs.len() as int) == jobs,
        forall|i: int|
            jobs.len() <= i < with_provider(jobs, from, to, names).len() ==> moves_one(
                #[trigger] with_provider(jobs, from, to, names)[i],
                from,
                to,
                names,
            ) && !path_taken(
                with_provider(jobs, from, to, names).take(i),
                with_provider(jobs, from, to, names)[i].path,
            ),
    decreases names.len(),
{
    let all = with_provider(jobs, from, to, names);
    if names.len() == 0 {
        assert(all.take(jobs.len() as int) =~= jobs);
    } else {
        let front = names.drop_last();
        let before = with_provider(jobs, from, to, front);
        lemma_provider_jobs(jobs, from, to, front);
        assert(all.take(jobs.len() as int) =~= before.take(jobs.len() as int));
        assert forall|i: int| jobs.len() <= i < all.len() implies moves_one(
            #[trigger] all[i],
            from,
            to,
            names,
        ) && !path_taken(all.take(i), all[i].path) by {
            if i < before.len() {
                assert(all[i] == before[i]);
                assert(all.take(i) =~= before.take(i));
                let k = choose|k: int|
                    0 <= k < front.len() && lies_under(#[trigger] front[k], from) && before[i] == (
                    JobView {
                        path: reroot(front[k], from, to),
                        source: SourceView::Integration(front[k]),
                        mode: WriteMode::CreateIfAbsent,
                    });
                assert(names[k] == front[k]);
            } else {
                assert(all.take(i) =~= before);
                assert(names[names.len() - 1] == names.last());
            }
        }
    }
}

/// A path that a job writes is written by a job still after more jobs came behind.
pub proof fn lemma_taken_stays(jobs: Seq<JobView>, more: Seq<JobView>, path: Seq<char>)
    requires
        jobs.len() <= more.len(),
        more.take(jobs.len() as int) == jobs,
        path_taken(jobs, path),
    ensures
        path_taken(more, path),
{
    let i = choose|i: int| 0 <= i < jobs.len() && (#[trigger] jobs[i]).path == path;
    assert(more.take(jobs.len() as int)[i] == more[i]);
}

/// No file of a provider is left out: each of `names` that lies below the provider's directory
/// has its new path written by a job. Where no job wrote that path when the file's turn came,
/// the job is the file's own.
pub proof fn lemma_provider_covers(
    jobs: Seq<JobView>,
    from: Seq<char>,
    to: Seq<char>,
    names: Seq<Seq<char>>,
)
    ensures
        forall|k: int|
            0 <= k < names.len() && lies_under(#[trigger] names[k], from) ==> path_taken(
                with_provider(jobs, from, to, names),
                reroot(names[k], from, to),
            ),
        forall|k: int|
            0 <= k < names.len() && lies_under(#[trigger] names[k], from) && !path_taken(
                with_provider(jobs, from, to, names.take(k)),
                reroot(names[k], from, to),
            ) ==> exists|i: int|
                jobs.len() <= i < with_provider(jobs, from, to, names).len() && #[trigger] with_provider(
                    jobs,
                    from,
                    to,
                    names,
                )[i] == (JobView {
                    path: reroot(names[k], from, to),
                    source: SourceView::Integration(names[k]),
                    mode: WriteMode::CreateIfAbsent,
                }),
    decreases names.len(),
{
    let all = with_provider(jobs, from, to, names);
    if names.len() > 0 {
        let front = names.drop_last();
        let n = names.len() - 1;
        let before = with_provider(jobs, from, to, front);
        lemma_provider_covers(jobs, from, to, front);
        lemma_provider_jobs(jobs, from, to, front);
        assert(before.len() <= all.len() && all.take(before.len() as int) =~= before);
        assert(names.take(n) =~= front);
        assert forall|k: int|
            0 <= k < names.len() && lies_under(#[trigger] names[k], from) implies path_taken(
            all,
            reroot(names[k], from, to),
        ) by {
            if k < n {
                assert(front[k] == names[k]);
                lemma_taken_stays(before, all, reroot(names[k], from, to));
            } else if path_taken(before, reroot(names[k], from, to)) {
            } else {
                assert(all[before.len() as int].path == reroot(names[k], from, to));
            }
        }
        assert forall|k: int|
            0 <= k < names.len() && lies_under(#[trigger] names[k], from) && !path_taken(
                with_provider(jobs, from, to, names.take(k)),
                reroot(names[k], from, to),
            ) implies exists|i: int|
            jobs.len() <= i < all.len() && #[trigger] all[i] == (JobView {
                path: reroot(names[k], from, to),
                source: SourceView::Integration(names[k]),
                mode: WriteMode::CreateIfAbsent,
            }) by {
            if k < n {
                assert(front[k] == names[k]);
                assert(front.take(k) =~= names.take(k));
                let i = choose|i: int|
                    jobs.len() <= i < before.len() && #[trigger] before[i] == (JobView {
                        path: reroot(front[k], from, to),
                        source: SourceView::Integration(front[k]),
                        mode: WriteMode::CreateIfAbsent,
                    });
                assert(all.take(before.len() as int)[i] == all[i]);
            } else {
                assert(all[before.len() as int] == (JobView {
                    path: reroot(names[k], from, to),
                    source: SourceView::Integration(names[k]),
                    mode: WriteMode::CreateIfAbsent,
                }));
            }
        }
    }
}

/// No file of any provider is left out: each of `names` that lies below the directory of one
/// of `providers` has its new path written by a job.
pub proof fn lemma_providers_cover(
    jobs: Seq<JobView>,
    providers: Seq<ContinuousIntegration>,
    names: Seq<Seq<char>>,
)
    ensures
        forall|p: int, k: int|
            0 <= p < providers.len() && 0 <= k < names.len() && lies_under(
                #[trigger] names[k],
                (#[trigger] providers[p]).source_dir(),
            ) ==> path_taken(
                with_providers(jobs, providers, names),
                reroot(names[k], providers[p].source_dir(), providers[p].target_dir()),
            ),
    decreases providers.len(),
{
    let all = with_providers(jobs, providers, names);
    if providers.len() > 0 {
        let front = providers.drop_last();
        let last = providers.last();
        let before = with_providers(jobs, front, names);
        lemma_providers_cover(jobs, front, names);
        lemma_provider_covers(before, last.source_dir(), last.target_dir(), names);
        lemma_provider_jobs(before, last.source_dir(), last.target_dir(), names);
        assert forall|p: int, k: int|
            0 <= p < providers.len() && 0 <= k < names.len() && lies_under(
                #[trigger] names[k],
                (#[trigger] providers[p]).source_dir(),
            ) implies path_taken(
            all,
            reroot(names[k], providers[p].source_dir(), providers[p].target_dir()),
        ) by {
            if p < front.len() {
                assert(front[p] == providers[p]);
                lemma_taken_stays(
                    before,
                    all,
                    reroot(names[k], providers[p].source_dir(), providers[p].target_dir()),
                );
            }
        }
    }
}

/// The jobs for the providers come behind the jobs that were there, which stay as they are.
/// Each of them moves a file of one of the providers to that provider's directory in the
/// project, and writes a path that no job before it writes.
pub proof fn lemma_providers_jobs(
    jobs: Seq<JobView>,
    providers: Seq<ContinuousIntegration>,
    names: Seq<Seq<char>>,
)
    ensures
        jobs.len() <= with_providers(jobs, providers, names).len(),
        with_providers(jobs, providers, names).take(jobs.len() as int) == jobs,
        forall|i: int|
            jobs.len() <= i < with_providers(jobs, providers, names).len() ==> (exists|p: int|
                0 <= p < providers.len() && moves_one(
                    with_providers(jobs, providers, names)[i],
                    (#[trigger] providers[p]).source_dir(),
                    providers[p].target_dir(),
                    names,
                )) && !path_taken(
                with_providers(jobs, providers, names).take(i),
                (#[trigger] with_providers(jobs, providers, names)[i]).path,
            ),
    decreases providers.len(),
{
    let all = with_providers(jobs, providers, names);
    if providers.len() == 0 {
        assert(all.take(jobs.len() as int) =~= jobs);
    } else {
        let front = providers.drop_last();
        let last = providers.last();
        let before = with_providers(jobs, front, names);
        lemma_providers_jobs(jobs, front, names);
        lemma_provider_jobs(before, last.source_dir(), last.target_dir(), names);
        assert(all.take(before.len() as int) == before);
        assert(all.take(jobs.len() as int) =~= before.take(jobs.len() as int));
        assert forall|i: int| jobs.len() <= i < all.len() implies (exists|p: int|
            0 <= p < providers.len() && moves_one(
                all[i],
                (#[trigger] providers[p]).source_dir(),
                providers[p].target_dir(),
                names,
            )) && !path_taken(all.take(i), (#[trigger] all[i]).path) by {
            if i < before.len() {
                assert(all[i] == all.take(before.len() as int)[i]);
                assert(all.take(i) =~= before.take(i));
                let p = choose|p: int|
                    0 <= p < front.len() && moves_one(
                        before[i],
                        (#[trigger] front[p]).source_dir(),
                        front[p].target_dir(),
                        names,
                    );
                assert(providers[p] == front[p]);
            } else {
                assert(providers[providers.len() - 1] == last);
            }
        }
    }
}

/// Where no license is chosen and the texts of the two default licenses are at hand, the
/// license files are `LICENSE-Apache-2.0` and `LICENSE-MIT`, in this order, each with its
/// text, and no license is missing.
pub proof fn lemma_default_licenses(
    jobs: Seq<JobView>,
    assets: Seq<FileView>,
    apache: Seq<u8>,
    mit: Seq<u8>,
)
    requires
        asset_of(assets, "Apache-2.0"@) == Some(apache),
        asset_of(assets, "MIT"@) == Some(mit),
    ensures
        with_licenses(jobs, effective_licenses(Seq::empty()), assets) == (
            jobs.push(
                JobView {
                    path: "LICENSE-Apache-2.0"@,
                    source: SourceView::Literal(apache),
                    mode: WriteMode::Replace,
                },
            ).push(
                JobView {
                    path: "LICENSE-MIT"@,
                    source: SourceView::Literal(mit),
                    mode: WriteMode::Replace,
                },
            ),
            None::<License>,
        ),
{
    reveal_strlit("LICENSE-");
    reveal_strlit("Apache-2.0");
    reveal_strlit("MIT");
    reveal_strlit("LICENSE-Apache-2.0");
    reveal_strlit("LICENSE-MIT");
    assert(license_path("Apache-2.0"@) =~= "LICENSE-Apache-2.0"@);
    assert(license_path("MIT"@) =~= "LICENSE-MIT"@);
    let both = seq![License::ApacheV2, License::Mit];
    let first = seq![License::ApacheV2];
    assert(both.drop_last() =~= first);
    assert(first.drop_last() =~= Seq::<License>::empty());
    assert(with_licenses(jobs, Seq::<License>::empty(), assets) == (jobs, None::<License>));
    assert(with_licenses(jobs, first, assets).1 is None);
    reveal_with_fuel(with_licenses, 3);
}

/// Where `NoLicense` is among the chosen licenses, alone or with others, there is no license
/// file, and no license is missing.
pub proof fn lemma_no_license(jobs: Seq<JobView>, chosen: Seq<License>, assets: Seq<FileView>)
    requires
        chosen.contains(License::NoLicense),
    ensures
        effective_licenses(chosen) == Seq::<License>::empty(),
        with_licenses(jobs, effective_licenses(chosen), assets) == (jobs, None::<License>),
        license_expression(effective_licenses(chosen)) == Seq::<char>::empty(),
{
}

/// Where no provider is chosen, every file for continuous integration goes below `.github`.
pub proof fn lemma_default_providers(jobs: Seq<JobView>, names: Seq<Seq<char>>)
    ensures
        jobs.len() <= with_providers(jobs, effective_providers(Seq::empty()), names).len(),
        with_providers(jobs, effective_providers(Seq::empty()), names).take(jobs.len() as int)
            == jobs,
        forall|i: int|
            jobs.len() <= i < with_providers(
                jobs,
                effective_providers(Seq::empty()),
                names,
            ).len() ==> crate::names::has_prefix(
                (#[trigger] with_providers(jobs, effective_providers(Seq::empty()), names)[i]).path,
                ".github/"@,
            ),
{
    let providers = effective_providers(Seq::empty());
    let all = with_providers(jobs, providers, names);
    lemma_providers_jobs(jobs, providers, names);
    reveal_strlit(".github/");
    reveal_strlit(".github");
    reveal_strlit("github");
    assert forall|i: int| jobs.len() <= i < all.len() implies crate::names::has_prefix(
        (#[trigger] all[i]).path,
        ".github/"@,
    ) by {
        let p = choose|p: int|
            0 <= p < providers.len() && moves_one(
                all[i],
                (#[trigger] providers[p]).source_dir(),
                providers[p].target_dir(),
                names,
            );
        assert(providers[p] == ContinuousIntegration::Github);
        let from = "github"@;
        let to = ".github"@;
        let k = choose|k: int|
            0 <= k < names.len() && lies_under(#[trigger] names[k], from) && all[i] == (JobView {
                path: reroot(names[k], from, to),
                source: SourceView::Integration(names[k]),
                mode: WriteMode::CreateIfAbsent,
            });
        let path = reroot(names[k], from, to);
        assert(path.subrange(0, 8) =~= ".github/"@);
    }
}

/// Where `NoIntegration` is among the chosen providers, alone or with others, there is no file
/// for continuous integration.
pub proof fn lemma_no_integration(
    jobs: Seq<JobView>,
    chosen: Seq<ContinuousIntegration>,
    names: Seq<Seq<char>>,
)
    requires
        chosen.contains(ContinuousIntegration::NoIntegration),
    ensures
        with_providers(jobs, effective_providers(chosen), names) == jobs,
{
}

/// The license jobs come behind the jobs that were there, which stay as they are. Each of them
/// writes the text of one of the licenses to the file named after that license.
pub proof fn lemma_license_jobs(jobs: Seq<JobView>, licenses: Seq<License>, assets: Seq<FileView>)
    ensures
        jobs.len() <= with_licenses(jobs, licenses, assets).0.len(),
        with_licenses(jobs, licenses, assets).0.take(jobs.len() as int) == jobs,
        forall|i: int|
            jobs.len() <= i < with_licenses(jobs, licenses, assets).0.len() ==> {
                let job = #[trigger] with_licenses(jobs, licenses, assets).0[i];
                &&& job.source is Literal
                &&& job.mode == WriteMode::Replace
                &&& exists|k: int|
                    0 <= k < licenses.len() && job.path == license_path(
                        (#[trigger] licenses[k]).id(),
                    ) && Some(job.source->Literal_0) == asset_of(assets, licenses[k].id())
            },
    decreases licenses.len(),
{
    let all = with_licenses(jobs, licenses, assets).0;
    if licenses.len() == 0 {
        assert(all.take(jobs.len() as int) =~= jobs);
    } else {
        let front = licenses.drop_last();
        let before = with_licenses(jobs, front, assets).0;
        lemma_license_jobs(jobs, front, assets);
        assert(all.take(jobs.len() as int) =~= before.take(jobs.len() as int));
        assert forall|i: int| jobs.len() <= i < all.len() implies {
            let job = #[trigger] all[i];
            &&& job.source is Literal
            &&& job.mode == WriteMode::Replace
            &&& exists|k: int|
                0 <= k < licenses.len() && job.path == license_path((#[trigger] licenses[k]).id())
                    && Some(job.source->Literal_0) == asset_of(assets, licenses[k].id())
        } by {
            if i < before.len() {
                assert(all[i] == before[i]);
                let k = choose|k: int|
                    0 <= k < front.len() && before[i].path == license_path(
                        (#[trigger] front[k]).id(),
                    ) && Some(before[i].source->Literal_0) == asset_of(assets, front[k].id());
                assert(licenses[k] == front[k]);
            } else {
                assert(licenses[licenses.len() - 1] == licenses.last());
            }
        }
    }
}

/// Nothing is planned for a target directory that is not there or holds something: the plan is
/// to fail with `DirectoryNotEmpty`, to write no file and to initialise no repository.
pub proof fn lemma_occupied_target(
    target: Target,
    opts: ProjectOpts,
    template: Seq<Seq<char>>,
    assets: Seq<FileView>,
    integration: Seq<Seq<char>>,
)
    requires
        !target.ready(),
    ensures
        planned(target, opts, template, assets, integration).jobs.len() == 0,
        planned(target, opts, template, assets, integration).failure == Some(
            Failure::DirectoryNotEmpty,
        ),
        !planned(target, opts, template, assets, integration).init_vcs,
{
}

/// Where the target directory is empty, the project has a name, no license is chosen and the
/// texts of the two default licenses are at hand, the plan holds exactly two license files,
/// `LICENSE-Apache-2.0` and `LICENSE-MIT`, behind the entries of the template, and the license
/// expression names both.
pub proof fn lemma_planned_default_licenses(
    target: Target,
    opts: ProjectOpts,
    template: Seq<Seq<char>>,
    assets: Seq<FileView>,
    integration: Seq<Seq<char>>,
    apache: Seq<u8>,
    mit: Seq<u8>,
)
    requires
        target.ready(),
        effective_name(name_view(opts.name), name_view(target.base_name)) is Some,
        opts.license@.len() == 0,
        asset_of(assets, "Apache-2.0"@) == Some(apache),
        asset_of(assets, "MIT"@) == Some(mit),
    ensures
        ({
            let plan = planned(target, opts, template, assets, integration);
            let n = template.len() as int;
            &&& plan.failure is None
            &&& plan.license == "Apache-2.0 OR MIT"@
            &&& plan.jobs.len() >= n + 2
            &&& plan.jobs.take(n) == template_jobs(template)
            &&& plan.jobs[n] == (JobView {
                path: "LICENSE-Apache-2.0"@,
                source: SourceView::Literal(apache),
                mode: WriteMode::Replace,
            })
            &&& plan.jobs[n + 1] == (JobView {
                path: "LICENSE-MIT"@,
                source: SourceView::Literal(mit),
                mode: WriteMode::Replace,
            })
            &&& forall|i: int| n + 2 <= i < plan.jobs.len() ==> (#[trigger] plan.jobs[i]).source is Integration
        }),
{
    let plan = planned(target, opts, template, assets, integration);
    let base = template_jobs(template);
    let licenses = effective_licenses(opts.license@);
    assert(opts.license@ =~= Seq::empty());
    lemma_default_licenses(base, assets, apache, mit);
    let licensed = with_licenses(base, licenses, assets).0;
    let providers = effective_providers(opts.continuous_integration@);
    lemma_providers_jobs(licensed, providers, integration);
    let n = template.len() as int;
    assert(plan.jobs.take(n + 2) == licensed);
    assert(plan.jobs.take(n) =~= licensed.take(n));
    assert(licensed.take(n) =~= base);
    assert(plan.jobs[n] == plan.jobs.take(n + 2)[n]);
    assert(plan.jobs[n + 1] == plan.jobs.take(n + 2)[n + 1]);
    assert(plan.license == "Apache-2.0 OR MIT"@) by {
        reveal_strlit("Apache-2.0");
        reveal_strlit("MIT");
        reveal_strlit(" OR ");
        reveal_strlit("Apache-2.0 OR MIT");
        reveal_with_fuel(license_expression, 3);
        assert(licenses.drop_last() =~= seq![License::ApacheV2]);
        assert(license_expression(licenses) =~= "Apache-2.0 OR MIT"@);
    }
    assert forall|i: int| n + 2 <= i < plan.jobs.len() implies (#[trigger] plan.jobs[i]).source is Integration by {
        let p = choose|p: int|
            0 <= p < providers.len() && moves_one(
                plan.jobs[i],
                (#[trigger] providers[p]).source_dir(),
                providers[p].target_dir(),
                integration,
            );
    }
}

/// Where `NoLicense` is among the chosen licenses, alone or with others, the plan holds no
/// license file: every job renders an entry, and the license expression is empty.
pub proof fn lemma_planned_no_license(
    target: Target,
    opts: ProjectOpts,
    template: Seq<Seq<char>>,
    assets: Seq<FileView>,
    integration: Seq<Seq<char>>,
)
    requires
        opts.license@.contains(License::NoLicense),
    ensures
        ({
            let plan = planned(target, opts, template, assets, integration);
            &&& plan.license == Seq::<char>::empty()
            &&& !(plan.failure matches Some(Failure::UnknownLicense(_)))
            &&& forall|i: int| 0 <= i < plan.jobs.len() ==> !((#[trigger] plan.jobs[i]).source is Literal)
        }),
{
    let plan = planned(target, opts, template, assets, integration);
    let base = template_jobs(template);
    lemma_no_license(base, opts.license@, assets);
    let providers = effective_providers(opts.continuous_integration@);
    lemma_providers_jobs(base, providers, integration);
    if target.ready() && effective_name(name_view(opts.name), name_view(target.base_name)) is Some {
        let n = template.len() as int;
        assert forall|i: int| 0 <= i < plan.jobs.len() implies !((#[trigger] plan.jobs[i]).source is Literal) by {
            if i < n {
                assert(plan.jobs[i] == plan.jobs.take(n)[i]);
            } else {
                let p = choose|p: int|
                    0 <= p < providers.len() && moves_one(
                        plan.jobs[i],
                        (#[trigger] providers[p]).source_dir(),
                        providers[p].target_dir(),
                        integration,
                    );
            }
        }
    }
}

/// Where no provider is chosen, every file for continuous integration that the plan holds goes
/// below `.github`.
pub proof fn lemma_planned_default_providers(
    target: Target,
    opts: ProjectOpts,
    template: Seq<Seq<char>>,
    assets: Seq<FileView>,
    integration: Seq<Seq<char>>,
)
    requires
        opts.continuous_integration@.len() == 0,
    ensures
        ({
            let plan = planned(target, opts, template, assets, integration);
            forall|i: int|
                0 <= i < plan.jobs.len() && (#[trigger] plan.jobs[i]).source is Integration
                    ==> crate::names::has_prefix(plan.jobs[i].path, ".github/"@)
        }),
{
    let plan = planned(target, opts, template, assets, integration);
    let base = template_jobs(template);
    let licenses = effective_licenses(opts.license@);
    let licensed = with_licenses(base, licenses, assets).0;
    assert(opts.continuous_integration@ =~= Seq::empty());
    lemma_license_jobs(base, licenses, assets);
    lemma_default_providers(licensed, integration);
    assert forall|i: int|
        0 <= i < plan.jobs.len() && (#[trigger] plan.jobs[i]).source is Integration implies crate::names::has_prefix(
        plan.jobs[i].path,
        ".github/"@,
    ) by {
        if plan.jobs == licensed {
            if i < base.len() {
                assert(licensed[i] == licensed.take(base.len() as int)[i]);
            }
        } else if plan.jobs.len() > 0 {
            if i < licensed.len() {
                assert(plan.jobs[i] == plan.jobs.take(licensed.len() as int)[i]);
                if i < base.len() {
                    assert(licensed[i] == licensed.take(base.len() as int)[i]);
                }
            }
        }
    }
}

/// Where `NoIntegration` is among the chosen providers, alone or with others, the plan holds
/// no file for continuous integration.
pub proof fn lemma_planned_no_integration(
    target: Target,
    opts: ProjectOpts,
    template: Seq<Seq<char>>,
    assets: Seq<FileView>,
    integration: Seq<Seq<char>>,
)
    requires
        opts.continuous_integration@.contains(ContinuousIntegration::NoIntegration),
    ensures
        ({
            let plan = planned(target, opts, template, assets, integration);
            forall|i: int| 0 <= i < plan.jobs.len() ==> !((#[trigger] plan.jobs[i]).source is Integration)
        }),
{
    let plan = planned(target, opts, template, assets, integration);
    let base = template_jobs(template);
    let licenses = effective_licenses(opts.license@);
    let licensed = with_licenses(base, licenses, assets).0;
    lemma_license_jobs(base, licenses, assets);
    lemma_no_integration(licensed, opts.continuous_integration@, integration);
    assert forall|i: int| 0 <= i < plan.jobs.len() implies !((#[trigger] plan.jobs[i]).source is Integration) by {
        if plan.jobs.len() > 0 {
            assert(plan.jobs == licensed);
            if i < base.len() {
                assert(licensed[i] == licensed.take(base.len() as int)[i]);
            }
        }
    }
}

/// Every job of the plan for a project names an entry that is there, or brings its own bytes.
pub proof fn lemma_planned_jobs_resolve(
    target: Target,
    opts: ProjectOpts,
    template: Seq<EntryView>,
    assets: Seq<FileView>,
    integration: Seq<EntryView>,
)
    ensures
        ({
            let plan = planned(
                target,
                opts,
                names_of(template),
                assets,
                names_of(integration),
            );
            forall|i: int|
                0 <= i < plan.jobs.len() ==> match (#[trigger] plan.jobs[i]).source {
                    SourceView::Template(name) => crate::templater::holds(template, name),
                    SourceView::Integration(name) => crate::templater::holds(integration, name),
                    SourceView::Literal(_) => true,
                }
        }),
{
    let names = names_of(template);
    let plan = planned(target, opts, names, assets, names_of(integration));
    let base = template_jobs(names);
    let licenses = effective_licenses(opts.license@);
    let licensed = with_licenses(base, licenses, assets).0;
    let providers = effective_providers(opts.continuous_integration@);
    lemma_license_jobs(base, licenses, assets);
    lemma_providers_jobs(licensed, providers, names_of(integration));
    assert forall|i: int| 0 <= i < plan.jobs.len() implies match (#[trigger] plan.jobs[i]).source {
        SourceView::Template(name) => crate::templater::holds(template, name),
        SourceView::Integration(name) => crate::templater::holds(integration, name),
        SourceView::Literal(_) => true,
    } by {
        if i < licensed.len() {
            if plan.jobs != licensed {
                assert(plan.jobs[i] == plan.jobs.take(licensed.len() as int)[i]);
            }
            if i < base.len() {
                assert(licensed[i] == licensed.take(base.len() as int)[i]);
                assert(template[i].name == names[i]);
            }
        } else {
            let p = choose|p: int|
                0 <= p < providers.len() && moves_one(
                    plan.jobs[i],
                    (#[trigger] providers[p]).source_dir(),
                    providers[p].target_dir(),
                    names_of(integration),
                );
            let from = providers[p].source_dir();
            let to = providers[p].target_dir();
            let all = names_of(integration);
            let k = choose|k: int|
                0 <= k < all.len() && lies_under(#[trigger] all[k], from) && plan.jobs[i] == (
                JobView {
                    path: reroot(all[k], from, to),
                    source: SourceView::Integration(all[k]),
                    mode: WriteMode::CreateIfAbsent,
                });
            assert(integration[k].name == all[k]);
        }
    }
}

/// Where the engine gave bytes for every job that owes it a call, making a project comes to
/// exactly what was planned: every planned file is written, with the bytes of what its job
/// names or the bytes that the engine gave, and the failure and the repository are as planned.
/// A plan without text that holds a substitution marker owes the engine nothing, and needs no
/// answers.
pub proof fn lemma_answered_project_completes(
    target: Target,
    opts: ProjectOpts,
    template: Seq<EntryView>,
    assets: Seq<FileView>,
    integration: Seq<EntryView>,
    answers: Seq<Option<Result<Vec<u8>, Failure>>>,
    m: Materialization,
)
    requires
        forall|i: int|
            0 <= i < planned(
                target,
                opts,
                names_of(template),
                assets,
                names_of(integration),
            ).jobs.len() && owes_engine(
                #[trigger] planned(
                    target,
                    opts,
                    names_of(template),
                    assets,
                    names_of(integration),
                ).jobs[i],
                template,
                integration,
            ) ==> answer_at(answers, i) matches Some(Ok(_)),
        carried_out(
            planned(target, opts, names_of(template), assets, names_of(integration)),
            template,
            integration,
            answers,
            m,
        ),
    ensures
        ({
            let plan = planned(
                target,
                opts,
                names_of(template),
                assets,
                names_of(integration),
            );
            &&& m.writes@.len() == plan.jobs.len()
            &&& m.failure == plan.failure
            &&& m.init_vcs == plan.init_vcs
            &&& forall|i: int|
                0 <= i < plan.jobs.len() ==> {
                    &&& (#[trigger] m.writes@[i])@.path == plan.jobs[i].path
                    &&& m.writes@[i]@.mode == plan.jobs[i].mode
                    &&& job_content(plan.jobs[i], template, integration) matches Some(content)
                        && m.writes@[i]@.content == match rendering_of(content) {
                        Rendering::Written => content.bytes(),
                        Rendering::EngineOwed => answers[i]->0->Ok_0@,
                    }
                }
        }),
{
    let plan = planned(target, opts, names_of(template), assets, names_of(integration));
    lemma_planned_jobs_resolve(target, opts, template, assets, integration);
    assert forall|i: int| 0 <= i < plan.jobs.len() implies job_content(
        #[trigger] plan.jobs[i],
        template,
        integration,
    ) is Some by {
        match plan.jobs[i].source {
            SourceView::Template(name) => {
                let k = crate::templater::position(template, name);
                assert(template[k].name == name);
            },
            SourceView::Integration(name) => {
                let k = crate::templater::position(integration, name);
                assert(integration[k].name == name);
            },
            SourceView::Literal(_) => {},
        }
    }
    let done = m.writes@.len() as int;
    if done < plan.jobs.len() {
        assert(job_content(plan.jobs[done], template, integration) is Some);
    }
}

/// The file of a license has a valid entry name.
pub proof fn lemma_license_path_valid(license: License)
    ensures
        valid_name(license_path(license.id())),
{
    reveal_strlit("LICENSE-");
    reveal_strlit("Apache-2.0");
    reveal_strlit("MIT");
    reveal_strlit("CC0-1.0");
    reveal_strlit("Other");
    let path = license_path(license.id());
    let head = "LICENSE-"@;
    let id = license.id();
    assert forall|i: int| 0 <= i < path.len() implies path[i] != '/' && !is_reserved(
        #[trigger] path[i],
    ) by {
        if i < head.len() {
            assert(path[i] == head[i]);
        } else {
            assert(path[i] == id[i - head.len()]);
        }
    }
    assert(path.len() > 2);
    lemma_component_valid(path);
}

/// Every file that a plan holds stays below the target directory: where the names of the
/// template's entries and of the built-in files for continuous integration are valid entry
/// names, so is the path of every job.
pub proof fn lemma_planned_paths_valid(
    target: Target,
    opts: ProjectOpts,
    template: Seq<Seq<char>>,
    assets: Seq<FileView>,
    integration: Seq<Seq<char>>,
)
    requires
        forall|i: int| 0 <= i < template.len() ==> valid_name(#[trigger] template[i]),
        forall|i: int| 0 <= i < integration.len() ==> valid_name(#[trigger] integration[i]),
    ensures
        forall|i: int|
            0 <= i < planned(target, opts, template, assets, integration).jobs.len() ==> valid_name(
                (#[trigger] planned(target, opts, template, assets, integration).jobs[i]).path,
            ),
{
    let plan = planned(target, opts, template, assets, integration);
    let base = template_jobs(template);
    let licenses = effective_licenses(opts.license@);
    let licensed = with_licenses(base, licenses, assets).0;
    let providers = effective_providers(opts.continuous_integration@);
    lemma_license_jobs(base, licenses, assets);
    lemma_providers_jobs(licensed, providers, integration);
    assert forall|i: int| 0 <= i < plan.jobs.len() implies valid_name(
        (#[trigger] plan.jobs[i]).path,
    ) by {
        if i < licensed.len() {
            if plan.jobs != licensed {
                assert(plan.jobs[i] == plan.jobs.take(licensed.len() as int)[i]);
            }
            if i < base.len() {
                assert(licensed[i] == licensed.take(base.len() as int)[i]);
                assert(valid_name(template[i]));
            } else {
                let k = choose|k: int|
                    0 <= k < licenses.len() && licensed[i].path == license_path(
                        (#[trigger] licenses[k]).id(),
                    ) && Some(licensed[i].source->Literal_0) == asset_of(assets, licenses[k].id());
                lemma_license_path_valid(licenses[k]);
            }
        } else {
            let p = choose|p: int|
                0 <= p < providers.len() && moves_one(
                    plan.jobs[i],
                    (#[trigger] providers[p]).source_dir(),
                    providers[p].target_dir(),
                    integration,
                );
            let from = providers[p].source_dir();
            let to = providers[p].target_dir();
            let k = choose|k: int|
                0 <= k < integration.len() && lies_under(#[trigger] integration[k], from)
                    && plan.jobs[i] == (JobView {
                    path: reroot(integration[k], from, to),
                    source: SourceView::Integration(integration[k]),
                    mode: WriteMode::CreateIfAbsent,
                });
            let name = integration[k];
            assert(valid_name(name));
            reveal_strlit("github");
            reveal_strlit(".github");
            reveal_strlit("");
            if providers[p] == ContinuousIntegration::Github {
                lemma_tail_valid(name, from.len() as int);
                assert forall|j: int| 0 <= j < to.len() implies to[j] != '/' && !is_reserved(
                    #[trigger] to[j],
                ) by {}
                lemma_component_valid(to);
                lemma_join_valid(to, name.subrange(from.len() + 1 as int, name.len() as int));
            } else {
                assert(from.len() == 0);
                assert(crate::names::bad_at(name, 0));
            }
        }
    }
}

/// No file is created twice: where the entries of the template have different names, two
/// jobs of a plan write the same path only if the later one is a license file, which replaces
/// what is there. A file of the template is never written over by another one, and a file for
/// continuous integration never takes the place of anything.
pub proof fn lemma_planned_conflicts(
    target: Target,
    opts: ProjectOpts,
    template: Seq<Seq<char>>,
    assets: Seq<FileView>,
    integration: Seq<Seq<char>>,
)
    requires
        template.no_duplicates(),
    ensures
        ({
            let plan = planned(target, opts, template, assets, integration);
            forall|i: int, j: int|
                0 <= i < j < plan.jobs.len() && (#[trigger] plan.jobs[i]).path == (
                #[trigger] plan.jobs[j]).path ==> plan.jobs[j].mode == WriteMode::Replace
        }),
{
    let plan = planned(target, opts, template, assets, integration);
    let base = template_jobs(template);
    let licenses = effective_licenses(opts.license@);
    let licensed = with_licenses(base, licenses, assets).0;
    let providers = effective_providers(opts.continuous_integration@);
    lemma_license_jobs(base, licenses, assets);
    lemma_providers_jobs(licensed, providers, integration);
    assert forall|i: int, j: int|
        0 <= i < j < plan.jobs.len() && (#[trigger] plan.jobs[i]).path == (
        #[trigger] plan.jobs[j]).path implies plan.jobs[j].mode == WriteMode::Replace by {
        if j < licensed.len() {
            if plan.jobs != licensed {
                assert(plan.jobs[i] == plan.jobs.take(licensed.len() as int)[i]);
                assert(plan.jobs[j] == plan.jobs.take(licensed.len() as int)[j]);
            }
            if j < base.len() {
                assert(licensed[i] == licensed.take(base.len() as int)[i]);
                assert(licensed[j] == licensed.take(base.len() as int)[j]);
                assert(template[i] != template[j]);
            }
        } else {
            assert(plan.jobs.take(j)[i] == plan.jobs[i]);
        }
    }
}

/// Where no provider is chosen and nothing fails the plan, every built-in file below `github`
/// has its place below `.github` written by a job of the plan.
pub proof fn lemma_planned_default_providers_cover(
    target: Target,
    opts: ProjectOpts,
    template: Seq<Seq<char>>,
    assets: Seq<FileView>,
    integration: Seq<Seq<char>>,
)
    requires
        opts.continuous_integration@.len() == 0,
        planned(target, opts, template, assets, integration).failure is None,
    ensures
        forall|k: int|
            0 <= k < integration.len() && lies_under(#[trigger] integration[k], "github"@)
                ==> path_taken(
                planned(target, opts, template, assets, integration).jobs,
                reroot(integration[k], "github"@, ".github"@),
            ),
{
    let base = template_jobs(template);
    let licenses = effective_licenses(opts.license@);
    let licensed = with_licenses(base, licenses, assets).0;
    let providers = effective_providers(opts.continuous_integration@);
    assert(opts.continuous_integration@ =~= Seq::empty());
    assert(providers[0] == ContinuousIntegration::Github);
    lemma_providers_cover(licensed, providers, integration);
}

/// A project made with nothing chosen, in an empty directory that has a name, with the texts
/// of the two default licenses at hand and an engine that gave bytes wherever it was owed a
/// call: nothing fails; every entry of the template is written under its name; behind them
/// come `LICENSE-Apache-2.0` and `LICENSE-MIT`, each with its text; every file behind those
/// goes below `.github`; every built-in file below `github` has its place below `.github`
/// written; and a repository is initialised.
pub proof fn lemma_default_project(
    target: Target,
    opts: ProjectOpts,
    template: Seq<EntryView>,
    assets: Seq<FileView>,
    integration: Seq<EntryView>,
    answers: Seq<Option<Result<Vec<u8>, Failure>>>,
    m: Materialization,
    apache: Seq<u8>,
    mit: Seq<u8>,
)
    requires
        target.ready(),
        effective_name(name_view(opts.name), name_view(target.base_name)) is Some,
        opts.license@.len() == 0,
        opts.continuous_integration@.len() == 0,
        opts.vcs is None,
        asset_of(assets, "Apache-2.0"@) == Some(apache),
        asset_of(assets, "MIT"@) == Some(mit),
        forall|i: int|
            0 <= i < planned(
                target,
                opts,
                names_of(template),
                assets,
                names_of(integration),
            ).jobs.len() && owes_engine(
                #[trigger] planned(
                    target,
                    opts,
                    names_of(template),
                    assets,
                    names_of(integration),
                ).jobs[i],
                template,
                integration,
            ) ==> answer_at(answers, i) matches Some(Ok(_)),
        carried_out(
            planned(target, opts, names_of(template), assets, names_of(integration)),
            template,
            integration,
            answers,
            m,
        ),
    ensures
        ({
            let n = template.len() as int;
            &&& m.failure is None
            &&& m.init_vcs
            &&& m.writes@.len() >= n + 2
            &&& forall|i: int| 0 <= i < n ==> (#[trigger] m.writes@[i])@.path == template[i].name
            &&& m.writes@[n]@ == (FileWriteView {
                path: "LICENSE-Apache-2.0"@,
                content: apache,
                mode: WriteMode::Replace,
            })
            &&& m.writes@[n + 1]@ == (FileWriteView {
                path: "LICENSE-MIT"@,
                content: mit,
                mode: WriteMode::Replace,
            })
            &&& forall|i: int|
                n + 2 <= i < m.writes@.len() ==> crate::names::has_prefix(
                    (#[trigger] m.writes@[i])@.path,
                    ".github/"@,
                )
            &&& forall|k: int|
                0 <= k < integration.len() && lies_under((#[trigger] integration[k]).name, "github"@)
                    ==> exists|i: int|
                    0 <= i < m.writes@.len() && (#[trigger] m.writes@[i])@.path == reroot(
                        integration[k].name,
                        "github"@,
                        ".github"@,
                    )
        }),
{
    let names = names_of(template);
    let built_in = names_of(integration);
    let plan = planned(target, opts, names, assets, built_in);
    let n = template.len() as int;
    lemma_planned_default_licenses(target, opts, names, assets, built_in, apache, mit);
    lemma_planned_default_providers(target, opts, names, assets, built_in);
    lemma_planned_default_providers_cover(target, opts, names, assets, built_in);
    lemma_answered_project_completes(target, opts, template, assets, integration, answers, m);
    assert forall|i: int| 0 <= i < n implies (#[trigger] m.writes@[i])@.path
        == template[i].name by {
        assert(plan.jobs[i] == plan.jobs.take(n)[i]);
    }
    assert(m.writes@[n]@.content == apache);
    assert(m.writes@[n + 1]@.content == mit);
    assert forall|i: int| n + 2 <= i < m.writes@.len() implies crate::names::has_prefix(
        (#[trigger] m.writes@[i])@.path,
        ".github/"@,
    ) by {
        assert(plan.jobs[i].source is Integration);
    }
    assert forall|k: int|
        0 <= k < integration.len() && lies_under(
            (#[trigger] integration[k]).name,
            "github"@,
        ) implies exists|i: int|
        0 <= i < m.writes@.len() && (#[trigger] m.writes@[i])@.path == reroot(
            integration[k].name,
            "github"@,
            ".github"@,
        ) by {
        assert(built_in[k] == integration[k].name);
        let path = reroot(built_in[k], "github"@, ".github"@);
        assert(path_taken(plan.jobs, path));
        let i = choose|i: int| 0 <= i < plan.jobs.len() && (#[trigger] plan.jobs[i]).path == path;
        assert(m.writes@[i]@.path == path);
    }
}

} // verus!
