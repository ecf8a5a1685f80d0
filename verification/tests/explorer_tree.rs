use viogg::explorer::{
    count_entries, directory_layout, recurse_click_check_direc, ClickOutcome, DirectoryNode,
};

fn file(p: &str) -> DirectoryNode {
    DirectoryNode::new(p.to_string(), false)
}

fn dir(p: &str) -> DirectoryNode {
    DirectoryNode::new(p.to_string(), true)
}

fn rows(ns: &Vec<DirectoryNode>) -> Vec<(usize, String)> {
    directory_layout(ns).into_iter().map(|r| (r.depth, r.label)).collect()
}

fn done(o: ClickOutcome) -> (Vec<DirectoryNode>, Option<String>, usize) {
    match o {
        ClickOutcome::Done { nodes, found, used } => (nodes, found, used),
        ClickOutcome::NeedListing { path } => panic!("needs listing of {}", path),
    }
}

#[test]
fn new_entry_is_closed() {
    let n = dir("./src");
    assert!(!n.opened);
    assert!(n.children.is_empty());
    assert!(n.is_dir);
}

#[test]
fn open_with_listing_and_close() {
    let mut n = dir("./src");
    assert!(!n.open(Some(vec![file("./src/a.rs")])));
    assert!(n.opened);
    assert_eq!(n.children.len(), 1);
    n.close();
    assert!(!n.opened);
    assert!(n.children.is_empty());
}

#[test]
fn open_failed_listing_is_a_file() {
    let mut n = file("./Cargo.toml");
    assert!(n.open(None));
    assert!(n.opened);
    assert!(n.children.is_empty());
}

#[test]
fn layout_in_preorder_with_depths() {
    let mut src = dir("./src");
    src.open(Some(vec![file("./src/main.rs"), dir("./src/bin")]));
    let ns = vec![dir("./assets"), src, file("./Cargo.toml")];
    assert_eq!(
        rows(&ns),
        vec![
            (0, "./assets".to_string()),
            (0, "./src".to_string()),
            (1, "main.rs".to_string()),
            (1, "./bin".to_string()),
            (0, "Cargo.toml".to_string()),
        ]
    );
    assert_eq!(count_entries(&ns), Some(5));
}

#[test]
fn missed_click_changes_nothing() {
    let mut src = dir("./src");
    src.open(Some(vec![file("./src/main.rs")]));
    let ns = vec![src, file("./Cargo.toml")];
    let (out, found, used) = done(recurse_click_check_direc(&ns, &vec![false, false, false], false, &vec![]));
    assert_eq!(found, None);
    assert_eq!(used, 0);
    assert_eq!(rows(&out), rows(&ns));
    assert!(out[0].opened);
}

#[test]
fn click_on_closed_directory_asks_for_listing_then_opens() {
    let ns = vec![file("./Cargo.toml"), dir("./src")];
    let hits = vec![false, true];
    match recurse_click_check_direc(&ns, &hits, false, &vec![]) {
        ClickOutcome::NeedListing { path } => assert_eq!(path, "./src"),
        ClickOutcome::Done { .. } => panic!("a listing is needed"),
    }
    let listings = vec![Some(vec![file("./src/lib.rs")])];
    let (out, found, used) = done(recurse_click_check_direc(&ns, &hits, false, &listings));
    assert_eq!(found, None);
    assert_eq!(used, 1);
    assert!(out[1].opened);
    assert_eq!(rows(&out)[2], (1, "lib.rs".to_string()));
}

#[test]
fn click_on_file_names_it() {
    let ns = vec![file("./Cargo.toml"), dir("./src")];
    let (out, found, used) = done(recurse_click_check_direc(&ns, &vec![true, false], false, &vec![None]));
    assert_eq!(found, Some("./Cargo.toml".to_string()));
    assert_eq!(used, 1);
    assert!(out[0].opened);
    assert!(out[0].children.is_empty());
}

#[test]
fn click_on_open_directory_closes_it_and_skips_its_rows() {
    let mut src = dir("./src");
    src.open(Some(vec![file("./src/main.rs"), file("./src/lib.rs")]));
    let ns = vec![src, file("./Cargo.toml")];
    // Row 0 is ./src, rows 1 and 2 its entries, row 3 Cargo.toml.
    let (out, found, _) = done(recurse_click_check_direc(&ns, &vec![true, false, false, true], false, &vec![None]));
    assert!(!out[0].opened);
    assert!(out[0].children.is_empty());
    assert_eq!(found, Some("./Cargo.toml".to_string()));
}

#[test]
fn click_on_nested_entry() {
    let mut src = dir("./src");
    src.open(Some(vec![dir("./src/bin"), file("./src/lib.rs")]));
    let ns = vec![src];
    let listings = vec![Some(vec![file("./src/bin/tool.rs")])];
    let (out, _, used) = done(recurse_click_check_direc(&ns, &vec![false, true, false], false, &listings));
    assert_eq!(used, 1);
    assert_eq!(
        rows(&out),
        vec![
            (0, "./src".to_string()),
            (1, "./bin".to_string()),
            (2, "tool.rs".to_string()),
            (1, "lib.rs".to_string()),
        ]
    );
}

#[test]
fn later_file_wins() {
    let ns = vec![file("./a"), file("./b")];
    let (_, found, used) = done(recurse_click_check_direc(&ns, &vec![true, true], false, &vec![None, None]));
    assert_eq!(found, Some("./b".to_string()));
    assert_eq!(used, 2);
}

#[test]
fn never_drawn_entries_use_fresh_hit() {
    // Nothing drawn yet: every entry counts as hit when the click falls on the origin.
    let ns = vec![dir("./d")];
    let listings = vec![Some(vec![file("./d/x")]), None];
    let (out, found, used) = done(recurse_click_check_direc(&ns, &vec![], true, &listings));
    assert_eq!(used, 2);
    assert_eq!(found, Some("./d/x".to_string()));
    assert!(out[0].children[0].opened);
}
