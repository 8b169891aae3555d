use bevy_editor::error::Failure;
use bevy_editor::loader::{continuous_integration_tera, default_template_tera, SourceFile};
use bevy_editor::options::{
    join_licenses, resolve_licenses, resolve_name, resolve_providers, resolve_vcs,
    ContinuousIntegration, License, ProjectOpts, VersionControlSystem,
};
use bevy_editor::project::{
    build_context, copy_failure, engine_call, find_asset, init_project, is_taken, plan_context,
    plan_project, render_plan, reroot_name, write_of, FileWrite, Job, Materialization, Plan, Source, Target,
    WriteMode,
};
use bevy_editor::templater::Templater;
use std::io::{Cursor, Write};
use zip::write::FileOptions;
use zip::{ZipArchive, ZipWriter};

fn file(name: &str, bytes: &[u8]) -> SourceFile {
    SourceFile { name: name.to_string(), bytes: bytes.to_vec() }
}

fn default_template() -> Templater {
    default_template_tera(&[
        file("Cargo.toml.tera", b"[package]\nname = \"{{ name }}\"\nlicense = \"{{ license }}\"\n"),
        file("src/main.rs", b"fn main() {}\n"),
        file(".gitignore", b"target\n"),
    ])
    .unwrap()
}

fn license_texts() -> Vec<SourceFile> {
    vec![
        file("Apache-2.0", b"Apache License, Version 2.0\n"),
        file("CC0-1.0", b"Creative Commons Zero\n"),
        file("MIT", b"MIT License\n"),
    ]
}

fn integration() -> Templater {
    continuous_integration_tera(&[
        file("github/workflows/ci.yaml", b"name: CI of {{ name }}\n"),
        file("github/dependabot.yml", b"version: 2\n"),
        file("gitlab/.gitlab-ci.yml", b"stages: []\n"),
    ])
    .unwrap()
}

fn empty_dir(name: &str) -> Target {
    Target { entry_count: Some(0), base_name: Some(name.to_string()) }
}

type Answer = Option<Result<Vec<u8>, Failure>>;

/// Asks the engine for what the plan owes it, as the program around the library does.
fn engine_answers(
    target: &Target,
    opts: &ProjectOpts,
    template: &Templater,
    integration: &Templater,
) -> Vec<Answer> {
    let plan = plan_project(
        target,
        opts,
        &template.get_template_names(),
        &license_texts(),
        &integration.get_template_names(),
    );
    let context = plan_context(&plan);
    let mut answers = Vec::new();
    for job in &plan.jobs {
        let answer = engine_call(job, template, integration).map(|(engine, entry)| {
            let mut out = Vec::new();
            match engine.render_to(entry, &context, &mut out) {
                Ok(()) => Ok(out),
                Err(e) => Err(Failure::RenderFailure(e.to_string())),
            }
        });
        let failed = matches!(answer, Some(Err(_)));
        answers.push(answer);
        if failed {
            break;
        }
    }
    answers
}

fn make(target: &Target, opts: &ProjectOpts, template: &Templater) -> Materialization {
    let integration = integration();
    let answers = engine_answers(target, opts, template, &integration);
    init_project(target, opts, template, &license_texts(), &integration, &answers)
}

fn paths(m: &Materialization) -> Vec<String> {
    m.writes.iter().map(|w| w.path.clone()).collect()
}

fn written<'a>(m: &'a Materialization, path: &str) -> Option<&'a FileWrite> {
    m.writes.iter().find(|w| w.path == path)
}

fn is_dir(m: &Materialization, dir: &str) -> bool {
    m.writes.iter().any(|w| w.path.starts_with(&format!("{}/", dir)))
}

#[test]
fn test_default_init_project() {
    let opts = ProjectOpts::default();
    let m = make(&empty_dir("bobgame"), &opts, &default_template());
    assert!(m.failure.is_none());
    assert!(is_dir(&m, ".github"));
    assert!(written(&m, "LICENSE-Apache-2.0").is_some());
    assert!(written(&m, "Cargo.toml").is_some());
}

#[test]
fn test_no_extras() {
    let opts = ProjectOpts {
        license: vec![License::NoLicense],
        continuous_integration: vec![ContinuousIntegration::NoIntegration],
        ..ProjectOpts::default()
    };
    let m = make(&empty_dir("bobgame"), &opts, &default_template());
    assert!(m.failure.is_none());
    assert!(!is_dir(&m, ".github"));
    assert!(written(&m, "LICENSE-Apache-2.0").is_none());
}

#[test]
fn test_use_zip_template() {
    let mut writer = ZipWriter::new(Cursor::new(Vec::new()));
    let files: [(&str, &[u8]); 4] = [
        ("simple/Cargo.toml", b"[package]\nname = \"simple\"\n"),
        ("simple/src/main.rs", b"mod simple;\nmod simple_raw;\nfn main() {}\n"),
        ("simple/src/simple.rs.tera", b"// part of {{ name }}\n"),
        ("simple/src/simple_raw.rs", b"// {{ untouched }}\n"),
    ];
    for (name, bytes) in files {
        writer.start_file(name, FileOptions::default()).unwrap();
        writer.write_all(bytes).unwrap();
    }
    let bytes = writer.finish().unwrap().into_inner();
    let mut archive = ZipArchive::new(Cursor::new(bytes)).unwrap();
    let template = Templater::from_zip(&mut archive).unwrap();
    let opts = ProjectOpts { template: Some("simple".to_string()), ..ProjectOpts::default() };
    let m = make(&empty_dir("project"), &opts, &template);
    assert!(m.failure.is_none());
    assert!(is_dir(&m, ".github"));
    assert!(written(&m, "LICENSE-Apache-2.0").is_some());
    assert!(written(&m, "Cargo.toml").is_some());
    assert!(written(&m, "src/simple.rs").is_some());
    assert!(written(&m, "src/simple_raw.rs").is_some());
    assert!(written(&m, "src/simple.rs.tera").is_none());
    assert_eq!(written(&m, "src/simple.rs").unwrap().content, b"// part of project\n".to_vec());
    assert_eq!(written(&m, "src/simple_raw.rs").unwrap().content, b"// {{ untouched }}\n".to_vec());
}

#[test]
fn a_default_project_has_cargo_file_licenses_and_workflow() {
    let m = make(&empty_dir("bobgame"), &ProjectOpts::default(), &default_template());
    assert!(m.failure.is_none());
    assert!(m.init_vcs);
    assert_eq!(
        paths(&m),
        vec![
            "Cargo.toml".to_string(),
            "src/main.rs".to_string(),
            ".gitignore".to_string(),
            "LICENSE-Apache-2.0".to_string(),
            "LICENSE-MIT".to_string(),
            ".github/workflows/ci.yaml".to_string(),
            ".github/dependabot.yml".to_string(),
        ]
    );
    assert_eq!(
        written(&m, "Cargo.toml").unwrap().content,
        b"[package]\nname = \"bobgame\"\nlicense = \"Apache-2.0 OR MIT\"\n".to_vec()
    );
    assert_eq!(written(&m, "Cargo.toml").unwrap().mode, WriteMode::CreateNew);
    assert_eq!(written(&m, "LICENSE-MIT").unwrap().content, b"MIT License\n".to_vec());
    assert_eq!(written(&m, "LICENSE-MIT").unwrap().mode, WriteMode::Replace);
    assert_eq!(
        written(&m, "LICENSE-Apache-2.0").unwrap().content,
        b"Apache License, Version 2.0\n".to_vec()
    );
    let workflow = written(&m, ".github/workflows/ci.yaml").unwrap();
    assert_eq!(workflow.content, b"name: CI of bobgame\n".to_vec());
    assert_eq!(workflow.mode, WriteMode::CreateIfAbsent);
}

#[test]
fn a_directory_that_is_not_empty_fails_and_nothing_is_written() {
    for count in [1usize, 2, 1000] {
        let target = Target { entry_count: Some(count), base_name: Some("bobgame".to_string()) };
        let m = make(&target, &ProjectOpts::default(), &default_template());
        assert!(matches!(m.failure, Some(Failure::DirectoryNotEmpty)));
        assert!(m.writes.is_empty());
        assert!(!m.init_vcs);
    }
    let nameless = Target { entry_count: Some(3), base_name: None };
    let m = make(&nameless, &ProjectOpts::default(), &default_template());
    assert!(matches!(m.failure, Some(Failure::DirectoryNotEmpty)));
    let missing = Target { entry_count: None, base_name: Some("bobgame".to_string()) };
    let m = make(&missing, &ProjectOpts::default(), &default_template());
    assert!(matches!(m.failure, Some(Failure::DirectoryNotEmpty)));
    assert!(m.writes.is_empty());
}

#[test]
fn a_project_without_a_name_fails() {
    let target = Target { entry_count: Some(0), base_name: None };
    let m = make(&target, &ProjectOpts::default(), &default_template());
    assert!(matches!(m.failure, Some(Failure::InvalidProjectName)));
    assert!(m.writes.is_empty());
    assert!(!m.init_vcs);
    let named = ProjectOpts { name: Some("given".to_string()), ..ProjectOpts::default() };
    let m = make(&target, &named, &default_template());
    assert!(m.failure.is_none());
    assert!(String::from_utf8(written(&m, "Cargo.toml").unwrap().content.clone())
        .unwrap()
        .contains("name = \"given\""));
}

#[test]
fn the_chosen_name_wins_over_the_directory() {
    assert_eq!(resolve_name(&Some("a".to_string()), &Some("b".to_string())).unwrap(), "a");
    assert_eq!(resolve_name(&None, &Some("b".to_string())).unwrap(), "b");
    assert_eq!(resolve_name(&Some("a".to_string()), &None).unwrap(), "a");
    assert!(matches!(resolve_name(&None, &None), Err(Failure::InvalidProjectName)));
}

#[test]
fn licenses_default_to_apache_and_mit() {
    assert_eq!(resolve_licenses(&[]), vec![License::ApacheV2, License::Mit]);
    assert_eq!(resolve_licenses(&[License::Cc0]), vec![License::Cc0]);
    assert_eq!(
        resolve_licenses(&[License::Mit, License::Cc0, License::Mit]),
        vec![License::Mit, License::Cc0, License::Mit]
    );
}

#[test]
fn the_no_license_sentinel_dominates() {
    assert!(resolve_licenses(&[License::NoLicense]).is_empty());
    assert!(resolve_licenses(&[License::Mit, License::NoLicense]).is_empty());
    assert!(resolve_licenses(&[License::NoLicense, License::ApacheV2, License::Cc0]).is_empty());
    for chosen in [vec![License::NoLicense], vec![License::Mit, License::NoLicense, License::Cc0]] {
        let opts = ProjectOpts { license: chosen, ..ProjectOpts::default() };
        let m = make(&empty_dir("bobgame"), &opts, &default_template());
        assert!(m.failure.is_none());
        assert!(paths(&m).iter().all(|p| !p.starts_with("LICENSE-")));
        assert_eq!(
            written(&m, "Cargo.toml").unwrap().content,
            b"[package]\nname = \"bobgame\"\nlicense = \"\"\n".to_vec()
        );
    }
}

#[test]
fn license_identifiers() {
    assert_eq!(License::ApacheV2.to_string(), "Apache-2.0");
    assert_eq!(License::Mit.to_string(), "MIT");
    assert_eq!(License::Cc0.to_string(), "CC0-1.0");
    for other in [License::Other, License::GplV2, License::GplV3, License::NoLicense] {
        assert_eq!(other.to_string(), "Other");
    }
}

#[test]
fn license_expressions_are_joined_by_or() {
    assert_eq!(join_licenses(&[]), "");
    assert_eq!(join_licenses(&[License::Mit]), "MIT");
    assert_eq!(join_licenses(&[License::ApacheV2, License::Mit]), "Apache-2.0 OR MIT");
    assert_eq!(
        join_licenses(&[License::Cc0, License::GplV3, License::Mit]),
        "CC0-1.0 OR Other OR MIT"
    );
}

#[test]
fn a_license_without_a_text_fails_after_the_template_is_written() {
    let opts = ProjectOpts { license: vec![License::Mit, License::GplV3, License::Cc0], ..ProjectOpts::default() };
    let m = make(&empty_dir("bobgame"), &opts, &default_template());
    assert!(matches!(m.failure, Some(Failure::UnknownLicense(License::GplV3))));
    assert!(!m.init_vcs);
    assert_eq!(
        paths(&m),
        vec![
            "Cargo.toml".to_string(),
            "src/main.rs".to_string(),
            ".gitignore".to_string(),
            "LICENSE-MIT".to_string(),
        ]
    );
}

#[test]
fn providers_default_to_github() {
    assert_eq!(resolve_providers(&[]), vec![ContinuousIntegration::Github]);
    assert_eq!(
        resolve_providers(&[ContinuousIntegration::Github, ContinuousIntegration::Github]),
        vec![ContinuousIntegration::Github, ContinuousIntegration::Github]
    );
    assert!(resolve_providers(&[ContinuousIntegration::NoIntegration]).is_empty());
    assert!(resolve_providers(&[
        ContinuousIntegration::Github,
        ContinuousIntegration::NoIntegration
    ])
    .is_empty());
}

#[test]
fn provider_paths() {
    assert_eq!(
        ContinuousIntegration::Github.paths(),
        ("github".to_string(), ".github".to_string())
    );
    assert_eq!(ContinuousIntegration::NoIntegration.paths(), (String::new(), String::new()));
}

#[test]
fn default_integration_goes_below_dot_github() {
    let m = make(&empty_dir("bobgame"), &ProjectOpts::default(), &default_template());
    let integration: Vec<&FileWrite> =
        m.writes.iter().filter(|w| w.mode == WriteMode::CreateIfAbsent).collect();
    assert_eq!(integration.len(), 2);
    assert!(integration.iter().all(|w| w.path.starts_with(".github/")));
    assert!(written(&m, ".gitlab-ci.yml").is_none());
}

#[test]
fn the_no_integration_sentinel_empties_the_set() {
    for chosen in [
        vec![ContinuousIntegration::NoIntegration],
        vec![ContinuousIntegration::Github, ContinuousIntegration::NoIntegration],
    ] {
        let opts = ProjectOpts { continuous_integration: chosen, ..ProjectOpts::default() };
        let m = make(&empty_dir("bobgame"), &opts, &default_template());
        assert!(m.failure.is_none());
        assert!(m.writes.iter().all(|w| w.mode != WriteMode::CreateIfAbsent));
        assert!(!is_dir(&m, ".github"));
        assert_eq!(m.writes.len(), 5);
    }
}

#[test]
fn integration_files_never_replace_what_is_there() {
    let mut template = Templater::default();
    template.add_raw_template(".github/workflows/ci.yaml", b"mine\n").unwrap();
    let m = make(&empty_dir("bobgame"), &ProjectOpts::default(), &template);
    assert!(m.failure.is_none());
    let all = paths(&m);
    assert_eq!(all.iter().filter(|p| p.as_str() == ".github/workflows/ci.yaml").count(), 1);
    assert_eq!(written(&m, ".github/workflows/ci.yaml").unwrap().content, b"mine\n".to_vec());
    assert!(written(&m, ".github/dependabot.yml").is_some());
    let twice = ProjectOpts {
        continuous_integration: vec![ContinuousIntegration::Github, ContinuousIntegration::Github],
        ..ProjectOpts::default()
    };
    let m = make(&empty_dir("bobgame"), &twice, &default_template());
    assert_eq!(m.writes.iter().filter(|w| w.mode == WriteMode::CreateIfAbsent).count(), 2);
}

#[test]
fn version_control_defaults_to_git() {
    assert_eq!(resolve_vcs(None), VersionControlSystem::Git);
    assert_eq!(resolve_vcs(Some(VersionControlSystem::NoVcs)), VersionControlSystem::NoVcs);
    assert_eq!(resolve_vcs(Some(VersionControlSystem::Git)), VersionControlSystem::Git);
    let opts = ProjectOpts { vcs: Some(VersionControlSystem::NoVcs), ..ProjectOpts::default() };
    let m = make(&empty_dir("bobgame"), &opts, &default_template());
    assert!(m.failure.is_none());
    assert!(!m.init_vcs);
}

#[test]
fn a_rendering_that_fails_ends_the_work_there() {
    let mut template = Templater::default();
    template.add_raw_template("a.txt", b"a").unwrap();
    template.add_raw_template("b.txt.tera", b"{{ undefined_variable }}").unwrap();
    template.add_raw_template("c.txt", b"c").unwrap();
    let m = make(&empty_dir("bobgame"), &ProjectOpts::default(), &template);
    assert!(matches!(m.failure, Some(Failure::RenderFailure(_))));
    assert_eq!(paths(&m), vec!["a.txt".to_string()]);
    assert!(!m.init_vcs);
}

#[test]
fn the_plan_names_where_each_file_comes_from() {
    let template = vec!["Cargo.toml".to_string()];
    let names = vec!["github/ci.yaml".to_string(), "README".to_string()];
    let plan: Plan = plan_project(
        &empty_dir("bobgame"),
        &ProjectOpts { license: vec![License::Mit], ..ProjectOpts::default() },
        &template,
        &license_texts(),
        &names,
    );
    assert_eq!(plan.name, "bobgame");
    assert_eq!(plan.license, "MIT");
    assert!(plan.failure.is_none());
    assert!(plan.init_vcs);
    assert_eq!(plan.jobs.len(), 3);
    assert!(matches!(&plan.jobs[0].source, Source::Template(n) if n == "Cargo.toml"));
    assert!(matches!(&plan.jobs[1].source, Source::Literal(b) if b == b"MIT License\n"));
    assert_eq!(plan.jobs[1].path, "LICENSE-MIT");
    assert!(matches!(&plan.jobs[2].source, Source::Integration(n) if n == "github/ci.yaml"));
    assert_eq!(plan.jobs[2].path, ".github/ci.yaml");
    assert!(is_taken(&plan.jobs, ".github/ci.yaml"));
    assert!(!is_taken(&plan.jobs, "github/ci.yaml"));
}

#[test]
fn a_job_for_an_entry_that_is_not_there_fails() {
    let plan = Plan {
        name: "n".to_string(),
        license: String::new(),
        jobs: vec![
            Job { path: "a".to_string(), source: Source::Literal(b"a".to_vec()), mode: WriteMode::Replace },
            Job {
                path: "b".to_string(),
                source: Source::Template("missing".to_string()),
                mode: WriteMode::CreateNew,
            },
        ],
        failure: None,
        init_vcs: true,
    };
    let m = render_plan(plan, &Templater::default(), &Templater::default(), &[]);
    assert!(matches!(m.failure, Some(Failure::TemplateNotFound)));
    assert_eq!(paths(&m), vec!["a".to_string()]);
    assert!(!m.init_vcs);
}

#[test]
fn entries_move_below_the_directory_of_their_provider() {
    assert_eq!(
        reroot_name("github/workflows/ci.yaml", "github", ".github"),
        Some(".github/workflows/ci.yaml".to_string())
    );
    assert_eq!(reroot_name("a/b", "a", "x/y"), Some("x/y/b".to_string()));
    assert_eq!(reroot_name("githubx/ci.yaml", "github", ".github"), None);
    assert_eq!(reroot_name("github", "github", ".github"), None);
    assert_eq!(reroot_name("github/", "github", ".github"), None);
    assert_eq!(reroot_name("gitlab/ci.yaml", "github", ".github"), None);
}

#[test]
fn the_first_text_of_a_license_is_found() {
    let texts = vec![file("MIT", b"one"), file("Apache-2.0", b"two"), file("MIT", b"three")];
    assert_eq!(find_asset(&texts, "MIT").unwrap().bytes, b"one".to_vec());
    assert_eq!(find_asset(&texts, "Apache-2.0").unwrap().bytes, b"two".to_vec());
    assert!(find_asset(&texts, "GPL").is_none());
    assert!(find_asset(&[], "MIT").is_none());
}

#[test]
fn a_job_that_the_engine_was_not_asked_for_fails() {
    let mut template = Templater::default();
    template.add_raw_template("a.txt", b"a").unwrap();
    template.add_raw_template("b.txt.tera", b"{{ name }}").unwrap();
    template.add_raw_template("c.txt", b"c").unwrap();
    let opts = ProjectOpts {
        license: vec![License::NoLicense],
        continuous_integration: vec![ContinuousIntegration::NoIntegration],
        ..ProjectOpts::default()
    };
    let target = empty_dir("bobgame");
    let none = Templater::default();
    let m = init_project(&target, &opts, &template, &[], &none, &[]);
    assert!(matches!(m.failure, Some(Failure::NotRendered)));
    assert_eq!(paths(&m), vec!["a.txt".to_string()]);
    let m = init_project(&target, &opts, &template, &[], &none, &[None, None, None]);
    assert!(matches!(m.failure, Some(Failure::NotRendered)));
    let answers = vec![None, Some(Ok(b"from the engine".to_vec()))];
    let m = init_project(&target, &opts, &template, &[], &none, &answers);
    assert!(m.failure.is_none());
    assert_eq!(paths(&m), vec!["a.txt".to_string(), "b.txt".to_string(), "c.txt".to_string()]);
    assert_eq!(written(&m, "b.txt").unwrap().content, b"from the engine".to_vec());
    assert_eq!(written(&m, "c.txt").unwrap().content, b"c".to_vec());
    let answers = vec![
        Some(Ok(b"not asked for".to_vec())),
        Some(Err(Failure::RenderFailure("gave up".to_string()))),
    ];
    let m = init_project(&target, &opts, &template, &[], &none, &answers);
    assert!(matches!(m.failure, Some(Failure::RenderFailure(ref message)) if message == "gave up"));
    assert_eq!(written(&m, "a.txt").unwrap().content, b"a".to_vec());
    assert_eq!(m.writes.len(), 1);
}

#[test]
fn the_engine_is_owed_a_call_for_text_with_markers_only() {
    let mut template = Templater::default();
    template.add_raw_template("plain.tera", b"plain").unwrap();
    template.add_raw_template("marked.tera", b"{{ name }}").unwrap();
    template.add_raw_template("blob", b"{{ name }}").unwrap();
    let none = Templater::default();
    let job = |source: Source| Job { path: "p".to_string(), source, mode: WriteMode::CreateNew };
    assert!(engine_call(&job(Source::Template("plain".to_string())), &template, &none).is_none());
    assert!(engine_call(&job(Source::Template("blob".to_string())), &template, &none).is_none());
    assert!(engine_call(&job(Source::Template("absent".to_string())), &template, &none).is_none());
    assert!(engine_call(&job(Source::Literal(b"{{ x }}".to_vec())), &template, &none).is_none());
    assert!(engine_call(&job(Source::Integration("marked".to_string())), &template, &none).is_none());
    let marked = job(Source::Template("marked".to_string()));
    let (engine, entry) = engine_call(&marked, &template, &none).unwrap();
    assert_eq!(entry, "marked");
    assert_eq!(engine.render(entry, &build_context("bob", "MIT")).unwrap(), "bob");
    let built_in = job(Source::Integration("marked".to_string()));
    let (_, entry) = engine_call(&built_in, &none, &template).unwrap();
    assert_eq!(entry, "marked");
}

#[test]
fn a_job_and_its_bytes_make_a_write() {
    let job = Job {
        path: "src/main.rs".to_string(),
        source: Source::Template("src/main.rs".to_string()),
        mode: WriteMode::CreateIfAbsent,
    };
    let write = write_of(&job, Ok(b"fn main() {}".to_vec())).unwrap();
    assert_eq!(write.path, "src/main.rs");
    assert_eq!(write.content, b"fn main() {}".to_vec());
    assert_eq!(write.mode, WriteMode::CreateIfAbsent);
    assert!(matches!(write_of(&job, Err(Failure::NotRendered)), Err(Failure::NotRendered)));
    assert!(matches!(
        write_of(&job, Err(Failure::RenderFailure("x".to_string()))),
        Err(Failure::RenderFailure(ref m)) if m == "x"
    ));
}

#[test]
fn failures_are_copied_as_they_are() {
    assert!(matches!(copy_failure(&Failure::DirectoryNotEmpty), Failure::DirectoryNotEmpty));
    assert!(matches!(
        copy_failure(&Failure::UnknownLicense(License::Cc0)),
        Failure::UnknownLicense(License::Cc0)
    ));
    assert!(matches!(
        copy_failure(&Failure::InvalidTemplate("why".to_string())),
        Failure::InvalidTemplate(ref m) if m == "why"
    ));
    assert!(matches!(
        copy_failure(&Failure::UnreadableArchive("zip".to_string())),
        Failure::UnreadableArchive(ref m) if m == "zip"
    ));
}

#[test]
fn a_project_from_an_archive_keeps_what_is_escaped_and_fills_in_the_rest() {
    let kept: Vec<u8> = vec![b'{', b'{', b' ', b'n', b'a', b'm', b'e', b' ', b'}', b'}', 0xff, 0];
    let mut writer = ZipWriter::new(Cursor::new(Vec::new()));
    let files: [(&str, &[u8]); 3] = [
        ("w/Cargo.toml", b"[package]\n"),
        ("w/src/main.rs.tera", b"fn main() { /* {{ name }} */ }"),
        ("w/src/keep.tera.tera", &kept),
    ];
    for (name, bytes) in files {
        writer.start_file(name, FileOptions::default()).unwrap();
        writer.write_all(bytes).unwrap();
    }
    let bytes = writer.finish().unwrap().into_inner();
    let mut archive = ZipArchive::new(Cursor::new(bytes)).unwrap();
    let template = Templater::from_zip(&mut archive).unwrap();
    let opts = ProjectOpts {
        name: Some("bob".to_string()),
        template: Some("t".to_string()),
        ..ProjectOpts::default()
    };
    let m = make(&empty_dir("elsewhere"), &opts, &template);
    assert!(m.failure.is_none());
    assert_eq!(written(&m, "Cargo.toml").unwrap().content, b"[package]\n".to_vec());
    assert_eq!(written(&m, "src/main.rs").unwrap().content, b"fn main() { /* bob */ }".to_vec());
    assert_eq!(written(&m, "src/keep.tera").unwrap().content, kept);
    assert!(written(&m, "src/main.rs.tera").is_none());
    assert!(written(&m, "src/keep.tera.tera").is_none());
}
