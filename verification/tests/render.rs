use sitegen::component::Component;
use sitegen::component::ComponentMap;
use sitegen::errors::BuildError;
use sitegen::inject::inject_websocket;
use sitegen::slots::slot_names;
use sitegen::slots::substitute;
use sitegen::tree::Files;

fn files_with(components: ComponentMap) -> Files {
    Files { root: "site".to_string(), templates: Vec::new(), components }
}

fn loaded_map(entries: &[(&str, &str)]) -> ComponentMap {
    let mut m = ComponentMap::new();
    for (name, content) in entries {
        let mut path = name.to_string();
        path.push_str(".component.html");
        m.insert(name, Component::new(path));
        assert!(m.load(name, content));
    }
    m
}

#[test]
fn substitutes_a_simple_slot() {
    let m = loaded_map(&[("footer", "<p>bye</p>")]);
    let out = substitute("<main/><#footer/>", &m).unwrap();
    assert_eq!(out, "<main/><p>bye</p>");
}

#[test]
fn substitutes_with_internal_whitespace() {
    let m = loaded_map(&[("foo", "F")]);
    assert_eq!(substitute("< #foo />", &m).unwrap(), "F");
    assert_eq!(substitute("<\t#foo\t/>", &m).unwrap(), "F");
}

#[test]
fn unicode_whitespace_counts_in_markers() {
    // The grammar's whitespace is the full Unicode white-space class:
    // a no-break space ends the name and pads the marker like any
    // blank would.
    let m = loaded_map(&[("a", "A")]);
    assert_eq!(substitute("<#a\u{a0}/>", &m).unwrap(), "A");
    assert_eq!(substitute("<\u{2003}#a/>", &m).unwrap(), "A");
}

#[test]
fn unicode_whitespace_counts_in_the_head_tag() {
    let mut html = "x</\u{a0}head\u{a0}>y".to_string();
    inject_websocket(&mut html, "S");
    assert_eq!(html, "xS</\u{a0}head\u{a0}>y");
}

#[test]
fn substitution_is_not_recursive() {
    // A component whose text is itself a slot marker comes through
    // verbatim: single-pass, no nested expansion.
    let m = loaded_map(&[("A", "<#B/>"), ("B", "never expanded")]);
    let out = substitute("see <#A/>!", &m).unwrap();
    assert_eq!(out, "see <#B/>!");
}

#[test]
fn slot_name_is_greedy() {
    // The name runs as far as it can while a closing still follows.
    let m = loaded_map(&[("a/>x", "Z")]);
    assert_eq!(substitute("<#a/>x/>", &m).unwrap(), "Z");
}

#[test]
fn comma_cannot_stand_in_a_name() {
    let m = loaded_map(&[("a", "A")]);
    assert_eq!(substitute("<#a,b/>", &m).unwrap(), "<#a,b/>");
}

#[test]
fn unterminated_marker_is_literal_text() {
    let m = loaded_map(&[("foo", "F")]);
    assert_eq!(substitute("<#foo", &m).unwrap(), "<#foo");
    assert_eq!(substitute("<# />", &m).unwrap(), "<# />");
}

#[test]
fn unknown_component_is_the_error() {
    let m = loaded_map(&[("known", "K")]);
    let err = substitute("<#known/> <#missing/>", &m).unwrap_err();
    assert_eq!(err, "missing");
}

#[test]
fn slot_names_in_scan_order() {
    let names = slot_names("<#a/> text <#b/> <#a/>");
    assert_eq!(names, vec!["a".to_string(), "b".to_string(), "a".to_string()]);
}

#[test]
fn render_markup_reports_unknown_component() {
    let files = files_with(loaded_map(&[]));
    let err = files.render_markup("<#missing/>", false, "").unwrap_err();
    assert_eq!(err, BuildError::UnknownComponent { name: "missing".to_string() });
    assert_eq!(err.message(), "no component named `missing`");
}

#[test]
fn render_markup_injects_when_asked() {
    let files = files_with(loaded_map(&[("t", "<title>x</title>")]));
    let out = files
        .render_markup("<html><head> <#t/> </head><body/></html>", true, "SNIP")
        .unwrap();
    assert_eq!(out, "<html><head> <title>x</title> SNIP</head><body/></html>");
}

#[test]
fn name_runs_swallow_markup_without_whitespace() {
    // Without any whitespace the greedy name run reaches the last
    // closing `/>`, so the marker captures far more than intended —
    // the unresolved name is then fatal.
    let m = loaded_map(&[("t", "T")]);
    let err = substitute("<html><head><#t/></head><body/></html>", &m).unwrap_err();
    assert_eq!(err, "t/></head><body");
}

#[test]
fn injection_goes_before_the_closing_head_tag() {
    let mut html = "<html><head><title>x</title></head><body/></html>".to_string();
    inject_websocket(&mut html, "S");
    assert_eq!(html, "<html><head><title>x</title>S</head><body/></html>");
}

#[test]
fn injection_prepends_without_a_head_tag() {
    let mut html = "<body/>".to_string();
    inject_websocket(&mut html, "S");
    assert_eq!(html, "S<body/>");
}

#[test]
fn injection_matches_head_case_insensitively() {
    let mut html = "<html><head></ HeAd ><body/></html>".to_string();
    inject_websocket(&mut html, "S");
    assert_eq!(html, "<html><head>S</ HeAd ><body/></html>");
}

#[test]
fn injection_takes_the_first_closing_head_tag() {
    let mut html = "a</head>b</head>c".to_string();
    inject_websocket(&mut html, "X");
    assert_eq!(html, "aX</head>b</head>c");
}

#[test]
fn markdown_rendering_converts_and_injects() {
    let converted = markdown::to_html("# Hi");
    let plain = Files::render_markdown("# Hi", false, "");
    assert_eq!(plain, converted);
    assert_ne!(plain, "# Hi");
    let dev = Files::render_markdown("# Hi", true, "SNIP");
    let mut expected = "SNIP".to_string();
    expected.push_str(&converted);
    assert_eq!(dev, expected);
}

#[test]
fn component_content_initializes_once() {
    let mut c = Component::new("site/a.component.html".to_string());
    assert!(!c.is_loaded());
    c.init_content("first");
    assert!(c.is_loaded());
    assert_eq!(c.get_content(), "first");
    c.init_content("second");
    assert_eq!(c.get_content(), "first");
    assert_eq!(c.path().as_str(), "site/a.component.html");
}

#[test]
fn component_map_load_is_get_or_initialize() {
    let mut m = ComponentMap::new();
    assert!(!m.load("a", "text"));
    m.insert("a", Component::new("a.component.html".to_string()));
    assert!(m.load("a", "one"));
    assert!(m.load("a", "two"));
    assert_eq!(m.get("a").unwrap().get_content(), "one");
}

#[test]
fn substitution_handles_non_ascii_text() {
    let m = loaded_map(&[("name", "Zoë")]);
    let out = substitute("héllo <#name/> — 你好", &m).unwrap();
    assert_eq!(out, "héllo Zoë — 你好");
}

#[test]
fn empty_component_content_substitutes_to_nothing() {
    let m = loaded_map(&[("void", "")]);
    assert_eq!(substitute("a<#void/>b", &m).unwrap(), "ab");
}

#[test]
fn injection_handles_non_ascii_documents() {
    let mut html = "émoji 🦀</head>rest".to_string();
    inject_websocket(&mut html, "S");
    assert_eq!(html, "émoji 🦀S</head>rest");
}

#[test]
fn opaque_plan_copies_the_source_untouched() {
    let files = files_with(ComponentMap::new());
    let (from, to) = files.render_opaque("_build", "site/img/logo.png").unwrap();
    assert_eq!(from, "site/img/logo.png");
    assert_eq!(to, "_build/img/logo.png");
}
