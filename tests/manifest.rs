use epub_io::manifest::{
    is_manifest_path, path_is_relative, text_sibling_path, Container, ExportError, Manifest,
    NavigationPoint, RawNavPoint, ResourceInfo,
};

fn info(path: &str, mime: &str) -> ResourceInfo {
    ResourceInfo { file_path: path.to_string(), mime_type: mime.to_string() }
}

fn nav(label: &str, content: &str, order: usize, children: Vec<RawNavPoint>) -> RawNavPoint {
    RawNavPoint {
        label: label.to_string(),
        content: content.to_string(),
        children,
        play_order: Some(order),
    }
}

fn container(resources: Vec<(&str, ResourceInfo)>) -> Container {
    Container {
        resources: resources.into_iter().map(|(id, r)| (id.to_string(), r)).collect(),
        spine: vec![],
        toc: vec![],
        metadata: vec![],
        extra_css: vec![],
        unique_identifier: None,
        cover_id: None,
    }
}

fn has_key<V>(v: &[(String, V)], k: &str) -> bool {
    v.iter().any(|(key, _)| key == k)
}

#[test]
fn mime_filtering_scenario() {
    let c = container(vec![
        ("img", info("images/a.png", "image/png")),
        ("exe", info("bin/tool.exe", "application/x-msdownload")),
        ("ch1", info("text/ch1.html", "text/html")),
    ]);
    let m = Manifest::provision_for(&c);
    let steps = m.plan_export(false).unwrap();
    let ids: Vec<&str> = steps.iter().map(|s| s.id.as_str()).collect();
    assert_eq!(ids, vec!["ch1", "img"]);
    assert!(steps.iter().all(|s| s.text_path.is_none()));
}

#[test]
fn html_gets_text_sibling() {
    let c = container(vec![
        ("img", info("images/a.png", "image/png")),
        ("ch1", info("text/ch1.xhtml", "application/xhtml+xml")),
    ]);
    let m = Manifest::provision_for(&c);
    let steps = m.plan_export(true).unwrap();
    assert_eq!(steps.len(), 2);
    assert_eq!(steps[0].id, "ch1");
    assert_eq!(steps[0].file_path, "text/ch1.xhtml");
    assert_eq!(steps[0].text_path.as_deref(), Some("text/ch1.txt"));
    assert_eq!(steps[1].id, "img");
    assert_eq!(steps[1].text_path, None);
}

#[test]
fn text_sibling_collision_fails() {
    let c = container(vec![
        ("ch1", info("ch1.html", "text/html")),
        ("notes", info("ch1.txt", "text/plain")),
    ]);
    let m = Manifest::provision_for(&c);
    match m.plan_export(true) {
        Err(ExportError::TextPathCollision { id, path }) => {
            assert_eq!(id, "ch1");
            assert_eq!(path, "ch1.txt");
        }
        other => panic!("expected a collision, got {:?}", other),
    }
    // without text conversion nothing collides
    assert_eq!(m.plan_export(false).unwrap().len(), 2);
}

#[test]
fn absolute_path_fails() {
    let c = container(vec![
        ("a", info("ok.css", "text/css")),
        ("b", info("/etc/passwd", "text/plain")),
    ]);
    let m = Manifest::provision_for(&c);
    match m.plan_export(false) {
        Err(ExportError::PathNotRelative { id, path }) => {
            assert_eq!(id, "b");
            assert_eq!(path, "/etc/passwd");
        }
        other => panic!("expected an absolute path error, got {:?}", other),
    }
}

#[test]
fn absolute_path_of_skipped_type_is_ignored() {
    let c = container(vec![("x", info("/abs/tool.exe", "application/x-msdownload"))]);
    let m = Manifest::provision_for(&c);
    assert_eq!(m.plan_export(true).unwrap().len(), 0);
}

#[test]
fn tree_shape_preservation() {
    let grandchild = nav("1.1.1", "c.html#g", 3, vec![]);
    let child_a = nav("1.1", "c.html#a", 1, vec![grandchild]);
    let child_b = nav("1.2", "c.html#b", 4, vec![]);
    let root = nav("1", "c.html", 0, vec![child_a, child_b]);
    let p = NavigationPoint::from_raw(&root);
    assert_eq!(p.label, "1");
    assert_eq!(p.content, "c.html");
    assert_eq!(p.play_order, Some(0));
    assert_eq!(p.children.len(), 2);
    assert_eq!(p.children[0].label, "1.1");
    assert_eq!(p.children[0].play_order, Some(1));
    assert_eq!(p.children[0].children.len(), 1);
    assert_eq!(p.children[0].children[0].label, "1.1.1");
    assert_eq!(p.children[0].children[0].content, "c.html#g");
    assert_eq!(p.children[0].children[0].play_order, Some(3));
    assert_eq!(p.children[0].children[0].children.len(), 0);
    assert_eq!(p.children[1].label, "1.2");
    assert_eq!(p.children[1].play_order, Some(4));
    assert_eq!(p.children[1].children.len(), 0);
}

#[test]
fn projection_keeps_toc_and_copies_fields() {
    let mut c = container(vec![("cover", info("cover.jpg", "image/jpeg"))]);
    c.toc = vec![nav("Intro", "intro.html", 1, vec![]), nav("End", "end.html", 2, vec![])];
    c.spine = vec!["cover".to_string()];
    c.extra_css = vec!["a.css".to_string(), "b.css".to_string()];
    c.unique_identifier = Some("urn:isbn:123".to_string());
    c.cover_id = Some("cover".to_string());
    let m = Manifest::provision_for(&c);
    assert_eq!(m.toc.len(), 2);
    assert_eq!(m.toc[0].label, "Intro");
    assert_eq!(m.toc[1].content, "end.html");
    assert_eq!(m.spine, vec!["cover".to_string()]);
    assert_eq!(m.extra_css, vec!["a.css".to_string(), "b.css".to_string()]);
    assert_eq!(m.unique_identifier.as_deref(), Some("urn:isbn:123"));
    assert_eq!(m.cover_id.as_deref(), Some("cover"));
}

#[test]
fn projection_keeps_references_resolved() {
    let mut c = container(vec![
        ("c2", info("c2.html", "text/html")),
        ("c1", info("c1.html", "text/html")),
        ("img", info("cover.png", "image/png")),
    ]);
    c.spine = vec!["c1".to_string(), "c2".to_string()];
    c.cover_id = Some("img".to_string());
    let m = Manifest::provision_for(&c);
    for id in &m.spine {
        assert!(has_key(&m.resources, id));
    }
    assert!(has_key(&m.resources, m.cover_id.as_deref().unwrap()));
}

#[test]
fn resources_sorted_by_id_later_entry_wins() {
    let c = container(vec![
        ("b", info("b.html", "text/html")),
        ("a", info("a.css", "text/css")),
        ("c", info("c.png", "image/png")),
        ("a", info("a2.css", "text/css")),
        ("B", info("upper.html", "text/html")),
    ]);
    let m = Manifest::provision_for(&c);
    let ids: Vec<&str> = m.resources.iter().map(|(k, _)| k.as_str()).collect();
    assert_eq!(ids, vec!["B", "a", "b", "c"]);
    assert_eq!(m.resources[1].1.file_path, "a2.css");
}

#[test]
fn metadata_grouped_by_key_in_order() {
    let mut c = container(vec![]);
    c.metadata = vec![
        ("title".to_string(), "A Book".to_string()),
        ("creator".to_string(), "First Author".to_string()),
        ("language".to_string(), "en".to_string()),
        ("creator".to_string(), "Second Author".to_string()),
    ];
    let m = Manifest::provision_for(&c);
    let keys: Vec<&str> = m.metadata.iter().map(|(k, _)| k.as_str()).collect();
    assert_eq!(keys, vec!["creator", "language", "title"]);
    assert_eq!(m.metadata[0].1, vec!["First Author".to_string(), "Second Author".to_string()]);
    assert_eq!(m.metadata[2].1, vec!["A Book".to_string()]);
}

#[test]
fn empty_container_projects_to_empty_manifest() {
    let c = container(vec![]);
    let m = Manifest::provision_for(&c);
    assert!(m.resources.is_empty());
    assert!(m.metadata.is_empty());
    assert!(m.toc.is_empty());
    assert!(m.all_file_paths().is_empty());
    assert!(m.plan_export(true).unwrap().is_empty());
}

#[test]
fn path_set_collapses_duplicates() {
    let c = container(vec![
        ("x", info("shared.css", "text/css")),
        ("y", info("shared.css", "text/css")),
        ("z", info("other.css", "text/css")),
    ]);
    let m = Manifest::provision_for(&c);
    let mut paths = m.all_file_paths();
    paths.sort();
    assert_eq!(paths, vec!["other.css".to_string(), "shared.css".to_string()]);
}

#[test]
fn text_sibling_paths() {
    assert_eq!(text_sibling_path("text/ch1.xhtml"), "text/ch1.txt");
    assert_eq!(text_sibling_path("ch1.html"), "ch1.txt");
    assert_eq!(text_sibling_path("a.b/readme"), "a.b/readme.txt");
    assert_eq!(text_sibling_path("dir/.hidden"), "dir/.hidden.txt");
    assert_eq!(text_sibling_path("x.tar.gz"), "x.tar.txt");
    assert_eq!(text_sibling_path("é/ü.html"), "é/ü.txt");
}

#[test]
fn relative_paths() {
    assert!(path_is_relative("OEBPS/ch1.html"));
    assert!(path_is_relative(""));
    assert!(!path_is_relative("/OEBPS/ch1.html"));
}

#[test]
fn manifest_path_extension() {
    assert!(is_manifest_path("out/manifest.toml"));
    assert!(is_manifest_path("manifest.toml"));
    assert!(!is_manifest_path("book.json"));
    assert!(!is_manifest_path("dir/.toml"));
    assert!(!is_manifest_path("toml"));
    assert!(!is_manifest_path("manifest.toml.bak"));
    assert!(!is_manifest_path("a.toml/manifest"));
}

#[test]
fn reference_check_detects_dangling_ids() {
    let mut c = container(vec![("c1", info("c1.html", "text/html"))]);
    c.spine = vec!["c1".to_string()];
    let m = Manifest::provision_for(&c);
    assert!(m.check_references());
    assert!(m.has_resource("c1"));
    assert!(!m.has_resource("c2"));

    c.spine = vec!["c1".to_string(), "c2".to_string()];
    assert!(!Manifest::provision_for(&c).check_references());

    c.spine = vec!["c1".to_string()];
    c.cover_id = Some("missing".to_string());
    assert!(!Manifest::provision_for(&c).check_references());
}
