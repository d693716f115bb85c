use sitegen::errors::BuildError;
use sitegen::paths::file_name;
use sitegen::paths::output_path;
use sitegen::paths::parent_of;
use sitegen::paths::with_html_extension;
use sitegen::tree::EntryFileType;
use sitegen::tree::Files;
use sitegen::tree::TemplateKind;
use sitegen::tree::WalkEntry;

fn entry(path: &str, file_type: EntryFileType) -> WalkEntry {
    WalkEntry::Entry { path: path.to_string(), file_type }
}

#[test]
fn collect_classifies_by_name() {
    let entries = vec![
        entry("site", EntryFileType::NotFile),
        entry("site/index.html", EntryFileType::File),
        entry("site/notes", EntryFileType::NotFile),
        entry("site/notes/readme.md", EntryFileType::File),
        entry("site/logo.png", EntryFileType::File),
        entry("site/footer.component.html", EntryFileType::File),
    ];
    let files = Files::collect("site".to_string(), entries).unwrap();
    assert_eq!(files.root, "site");
    assert_eq!(files.templates.len(), 3);
    assert_eq!(files.templates[0].path, "site/index.html");
    assert!(matches!(files.templates[0].kind, TemplateKind::Html));
    assert!(matches!(files.templates[1].kind, TemplateKind::Markdown));
    assert!(matches!(files.templates[2].kind, TemplateKind::Other));
    assert!(files.components.contains("footer"));
    assert_eq!(files.components.get("footer").unwrap().path().as_str(), "site/footer.component.html");
    assert!(!files.components.get("footer").unwrap().is_loaded());
}

#[test]
fn collect_stops_at_a_walk_error() {
    let entries = vec![
        entry("site/a.html", EntryFileType::File),
        WalkEntry::Error { message: "permission denied".to_string() },
        entry("site/b.html", EntryFileType::File),
    ];
    let err = Files::collect("site".to_string(), entries).unwrap_err();
    assert_eq!(err, BuildError::Traversal { message: "permission denied".to_string() });
    assert_eq!(err.message(), "permission denied");
}

#[test]
fn collect_fails_on_undeterminable_file_type() {
    let entries = vec![entry("site/ghost", EntryFileType::Unknown)];
    let err = Files::collect("site".to_string(), entries).unwrap_err();
    assert_eq!(err, BuildError::UnknownFileType { path: "site/ghost".to_string() });
    assert_eq!(err.message(), "couldn't determine file type of `site/ghost`");
}

#[test]
fn component_naming_wins_over_file_type() {
    // A component-named entry is taken as a component before the file
    // type is ever looked at.
    let entries = vec![entry("site/odd.component.html", EntryFileType::Unknown)];
    let files = Files::collect("site".to_string(), entries).unwrap();
    assert!(files.components.contains("odd"));
    assert_eq!(files.templates.len(), 0);
}

#[test]
fn later_component_overrides_earlier() {
    let entries = vec![
        entry("site/a/nav.component.html", EntryFileType::File),
        entry("site/b/nav.component.html", EntryFileType::File),
    ];
    let files = Files::collect("site".to_string(), entries).unwrap();
    assert_eq!(files.components.get("nav").unwrap().path().as_str(), "site/b/nav.component.html");
}

#[test]
fn extension_rules_follow_the_file_name() {
    let entries = vec![
        entry("site/.gitignore", EntryFileType::File),
        entry("site/archive.tar.gz", EntryFileType::File),
        entry("site/README.md", EntryFileType::File),
        entry("site/trailing.", EntryFileType::File),
    ];
    let files = Files::collect("site".to_string(), entries).unwrap();
    assert!(matches!(files.templates[0].kind, TemplateKind::Other));
    assert!(matches!(files.templates[1].kind, TemplateKind::Other));
    assert!(matches!(files.templates[2].kind, TemplateKind::Markdown));
    assert!(matches!(files.templates[3].kind, TemplateKind::Other));
}

#[test]
fn output_paths_mirror_the_input_tree() {
    let files = Files {
        root: "site".to_string(),
        templates: Vec::new(),
        components: sitegen::component::ComponentMap::new(),
    };
    assert_eq!(files.get_output_path("_build", "site/a/b.png").unwrap(), "_build/a/b.png");
    assert_eq!(files.get_output_path("_build", "site/top.html").unwrap(), "_build/top.html");
    let err = files.get_output_path("_build", "elsewhere/x").unwrap_err();
    assert_eq!(err, BuildError::OutsideRoot { path: "elsewhere/x".to_string() });
    assert_eq!(err.message(), "path `elsewhere/x` lies outside the input root");
}

#[test]
fn output_paths_for_a_dot_root() {
    let files = Files {
        root: ".".to_string(),
        templates: Vec::new(),
        components: sitegen::component::ComponentMap::new(),
    };
    assert_eq!(files.get_output_path("_build", "./a/b.html").unwrap(), "_build/a/b.html");
}

#[test]
fn markdown_outputs_force_the_html_extension() {
    let files = Files {
        root: "site".to_string(),
        templates: Vec::new(),
        components: sitegen::component::ComponentMap::new(),
    };
    assert_eq!(files.markdown_output_path("_build", "site/n/r.md").unwrap(), "_build/n/r.html");
    assert_eq!(files.markdown_output_path("_build", "site/plain").unwrap(), "_build/plain.html");
    assert_eq!(files.markdown_output_path("_build", "site/a.b.md").unwrap(), "_build/a.b.html");
}

#[test]
fn file_name_of_paths() {
    assert_eq!(file_name("a/b/c.txt"), Some("c.txt".to_string()));
    assert_eq!(file_name("c.txt"), Some("c.txt".to_string()));
    assert_eq!(file_name("a/b/"), None);
    assert_eq!(file_name("a/.."), None);
    assert_eq!(file_name("."), None);
}

#[test]
fn html_extension_forcing() {
    assert_eq!(with_html_extension("a/b.md"), "a/b.html");
    assert_eq!(with_html_extension("a/b"), "a/b.html");
    assert_eq!(with_html_extension("a/.hidden"), "a/.hidden.html");
    assert_eq!(with_html_extension("a/"), "a/");
}

#[test]
fn parents_of_paths() {
    assert_eq!(parent_of("a/b/c"), Some("a/b".to_string()));
    assert_eq!(parent_of("a"), Some("".to_string()));
    assert_eq!(parent_of(""), None);
    assert_eq!(parent_of("/"), None);
}

#[test]
fn plain_output_path_mapping() {
    assert_eq!(output_path("in", "out", "in/x/y"), Some("out/x/y".to_string()));
    assert_eq!(output_path("in", "out", "other/x"), None);
    assert_eq!(output_path("", "out", "x"), Some("out/x".to_string()));
}
