use vfs_overlay::error::VfsError;
use vfs_overlay::gateway::PluginGateway;
use vfs_overlay::item::{insert_child, VfsItem};
use vfs_overlay::reader::{read_dir, read_file, read_path, FsEntry};
use vfs_overlay::vfs::Vfs;

struct Quiet;

impl PluginGateway for Quiet {
    fn handle_file_change(&self, _route: &Vec<String>) -> Option<Vec<Vec<String>>> {
        None
    }
}

fn segments(parts: &[&str]) -> Vec<String> {
    parts.iter().map(|s| s.to_string()).collect()
}

fn text(contents: &str) -> FsEntry {
    FsEntry::File { contents: Some(contents.to_string()) }
}

fn dir(entries: Vec<(&str, FsEntry)>) -> FsEntry {
    FsEntry::Dir {
        entries: Some(entries.into_iter().map(|(name, e)| (name.to_string(), e)).collect()),
    }
}

fn mounted() -> Vfs<Quiet> {
    let mut vfs = Vfs::new(Quiet);
    vfs.add_partition("site".to_string(), "/tmp/site".to_string());
    vfs
}

fn children_of(item: &VfsItem) -> &Vec<(String, VfsItem)> {
    match item {
        VfsItem::Dir { children, .. } => children,
        VfsItem::File { .. } => panic!("a directory was expected"),
    }
}

fn child<'a>(item: &'a VfsItem, name: &str) -> Option<&'a VfsItem> {
    children_of(item).iter().find(|(n, _)| n == name).map(|(_, c)| c)
}

fn contents_of(item: &VfsItem) -> &str {
    match item {
        VfsItem::File { contents, .. } => contents,
        VfsItem::Dir { .. } => panic!("a file was expected"),
    }
}

#[test]
fn file_is_read_with_its_route_and_text() {
    let vfs = mounted();
    let route = segments(&["site", "index.html"]);
    let item = vfs.read(&route, &text("hi")).unwrap();
    match &item {
        VfsItem::File { route: r, contents } => {
            assert_eq!(r, &route);
            assert_eq!(contents, "hi");
        }
        VfsItem::Dir { .. } => panic!("a file was expected"),
    }
    assert_eq!(item.route(), &route[..]);
    assert_eq!(item.name(), "index.html");
}

#[test]
fn partition_root_is_read_like_any_entry() {
    let vfs = mounted();
    let route = segments(&["site"]);
    let as_file = vfs.read(&route, &text("root file")).unwrap();
    assert_eq!(as_file.route(), &route[..]);
    assert_eq!(as_file.name(), "site");
    assert_eq!(contents_of(&as_file), "root file");
    let direct = read_path(&route, &text("root file")).unwrap();
    assert_eq!(direct.route(), as_file.route());
    assert_eq!(contents_of(&direct), contents_of(&as_file));
}

#[test]
fn item_route_is_the_route_that_was_read() {
    let vfs = mounted();
    let route = segments(&["site", "a", "b", "c.txt"]);
    let item = vfs.read(&route, &text("")).unwrap();
    assert_eq!(item.route(), &route[..]);
    assert_eq!(item.name(), "c.txt");
    let tree = vfs.read(&route, &dir(vec![])).unwrap();
    assert_eq!(tree.route(), &route[..]);
}

#[test]
fn empty_directory_has_no_children() {
    let item = read_path(&segments(&["site", "empty"]), &dir(vec![])).unwrap();
    assert_eq!(children_of(&item).len(), 0);
    assert_eq!(item.name(), "empty");
}

#[test]
fn children_carry_the_parent_route_and_their_name() {
    let route = segments(&["site", "posts"]);
    let entry = dir(vec![
        ("a.md", text("A")),
        ("drafts", dir(vec![("b.md", text("B"))])),
    ]);
    let item = read_path(&route, &entry).unwrap();
    assert_eq!(children_of(&item).len(), 2);
    let a = child(&item, "a.md").unwrap();
    assert_eq!(a.route(), &segments(&["site", "posts", "a.md"])[..]);
    assert_eq!(a.name(), "a.md");
    assert_eq!(contents_of(a), "A");
    let drafts = child(&item, "drafts").unwrap();
    assert_eq!(drafts.route(), &segments(&["site", "posts", "drafts"])[..]);
    let b = child(drafts, "b.md").unwrap();
    assert_eq!(b.route(), &segments(&["site", "posts", "drafts", "b.md"])[..]);
    assert_eq!(contents_of(b), "B");
}

#[test]
fn unreadable_children_are_left_out() {
    let route = segments(&["site"]);
    let entry = dir(vec![
        ("one.txt", text("1")),
        ("gone", FsEntry::Unreadable),
        ("two.txt", text("2")),
        ("binary", FsEntry::File { contents: None }),
        ("socket", FsEntry::Other),
        ("locked", FsEntry::Dir { entries: None }),
        ("three", dir(vec![])),
    ]);
    let item = read_path(&route, &entry).unwrap();
    let names: Vec<&str> = children_of(&item).iter().map(|(n, _)| n.as_str()).collect();
    assert_eq!(names, vec!["one.txt", "two.txt", "three"]);
    assert!(child(&item, "gone").is_none());
    assert!(child(&item, "binary").is_none());
    assert!(child(&item, "socket").is_none());
    assert!(child(&item, "locked").is_none());
}

#[test]
fn directory_of_unreadable_children_still_succeeds() {
    let entry = dir(vec![("a", FsEntry::Unreadable), ("b", FsEntry::Other)]);
    let item = read_path(&segments(&["site"]), &entry).unwrap();
    assert_eq!(children_of(&item).len(), 0);
}

#[test]
fn failure_deep_below_is_left_out_where_it_occurs() {
    let entry = dir(vec![("outer", dir(vec![("inner", FsEntry::Unreadable), ("kept", text("k"))]))]);
    let item = read_path(&segments(&["site"]), &entry).unwrap();
    let outer = child(&item, "outer").unwrap();
    assert_eq!(children_of(outer).len(), 1);
    assert_eq!(contents_of(child(outer, "kept").unwrap()), "k");
}

#[test]
fn later_entry_of_a_name_replaces_the_earlier() {
    let entry = dir(vec![("a", text("first")), ("b", text("other")), ("a", text("second"))]);
    let item = read_path(&segments(&["site"]), &entry).unwrap();
    assert_eq!(children_of(&item).len(), 2);
    assert_eq!(contents_of(child(&item, "a").unwrap()), "second");
    assert_eq!(contents_of(child(&item, "b").unwrap()), "other");
}

#[test]
fn unreadable_entry_of_a_name_keeps_the_earlier() {
    let entry = dir(vec![("a", text("first")), ("a", FsEntry::Unreadable)]);
    let item = read_path(&segments(&["site"]), &entry).unwrap();
    assert_eq!(children_of(&item).len(), 1);
    assert_eq!(contents_of(child(&item, "a").unwrap()), "first");
}

#[test]
fn top_level_failures_are_reported() {
    let vfs = mounted();
    let route = segments(&["site", "x"]);
    assert_eq!(vfs.read(&route, &FsEntry::Unreadable).unwrap_err(), VfsError::Read);
    assert_eq!(vfs.read(&route, &FsEntry::File { contents: None }).unwrap_err(), VfsError::Read);
    assert_eq!(vfs.read(&route, &FsEntry::Dir { entries: None }).unwrap_err(), VfsError::Read);
    assert_eq!(vfs.read(&route, &FsEntry::Other).unwrap_err(), VfsError::UnsupportedType);
}

#[test]
fn read_file_needs_the_text() {
    let route = segments(&["site", "f"]);
    let item = read_file(&route, &Some("body".to_string())).unwrap();
    assert_eq!(contents_of(&item), "body");
    assert_eq!(item.route(), &route[..]);
    assert_eq!(read_file(&route, &None).unwrap_err(), VfsError::Read);
}

#[test]
fn read_dir_needs_the_listing() {
    let route = segments(&["site", "d"]);
    assert_eq!(read_dir(&route, &None).unwrap_err(), VfsError::Read);
    let listing = Some(vec![("f".to_string(), text("x"))]);
    let item = read_dir(&route, &listing).unwrap();
    assert_eq!(item.route(), &route[..]);
    assert_eq!(children_of(&item).len(), 1);
    assert_eq!(child(&item, "f").unwrap().route(), &segments(&["site", "d", "f"])[..]);
}

#[test]
fn insert_child_adds_a_new_name_at_the_end() {
    let mut children: Vec<(String, VfsItem)> = Vec::new();
    let file = |name: &str, body: &str| VfsItem::File {
        route: segments(&["site", name]),
        contents: body.to_string(),
    };
    insert_child(&mut children, "a".to_string(), file("a", "1"));
    insert_child(&mut children, "b".to_string(), file("b", "2"));
    let names: Vec<&str> = children.iter().map(|(n, _)| n.as_str()).collect();
    assert_eq!(names, vec!["a", "b"]);
}

#[test]
fn insert_child_replaces_a_known_name_in_place() {
    let mut children: Vec<(String, VfsItem)> = Vec::new();
    let file = |name: &str, body: &str| VfsItem::File {
        route: segments(&["site", name]),
        contents: body.to_string(),
    };
    insert_child(&mut children, "a".to_string(), file("a", "1"));
    insert_child(&mut children, "b".to_string(), file("b", "2"));
    insert_child(&mut children, "a".to_string(), file("a", "3"));
    let names: Vec<&str> = children.iter().map(|(n, _)| n.as_str()).collect();
    assert_eq!(names, vec!["a", "b"]);
    assert_eq!(contents_of(&children[0].1), "3");
    assert_eq!(contents_of(&children[1].1), "2");
}
