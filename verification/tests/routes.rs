use vfs_overlay::error::{RouteError, VfsError};
use vfs_overlay::gateway::PluginGateway;
use vfs_overlay::reader::FsEntry;
use vfs_overlay::route::{child_route, clone_route, join_segments};
use vfs_overlay::vfs::Vfs;

struct Silent;

impl PluginGateway for Silent {
    fn handle_file_change(&self, _route: &Vec<String>) -> Option<Vec<Vec<String>>> {
        None
    }
}

fn route(segments: &[&str]) -> Vec<String> {
    segments.iter().map(|s| s.to_string()).collect()
}

fn site() -> Vfs<Silent> {
    let mut vfs = Vfs::new(Silent);
    vfs.add_partition("site".to_string(), "/tmp/site".to_string());
    vfs
}

#[test]
fn join_of_no_segments_is_empty() {
    assert_eq!(join_segments(&route(&[])), "");
}

#[test]
fn join_of_one_segment_is_the_segment() {
    assert_eq!(join_segments(&route(&["posts"])), "posts");
}

#[test]
fn join_puts_a_slash_between_segments() {
    assert_eq!(join_segments(&route(&["posts", "2017", "foo.md"])), "posts/2017/foo.md");
}

#[test]
fn join_keeps_empty_segments() {
    assert_eq!(join_segments(&route(&["a", "", "b"])), "a//b");
    assert_eq!(join_segments(&route(&[""])), "");
}

#[test]
fn clone_route_copies_every_segment() {
    let source = route(&["site", "posts", "foo.md"]);
    assert_eq!(clone_route(&source), source);
    assert_eq!(clone_route(&route(&[])), route(&[]));
}

#[test]
fn child_route_appends_the_name() {
    let parent = route(&["site", "posts"]);
    assert_eq!(child_route(&parent, &"foo.md".to_string()), route(&["site", "posts", "foo.md"]));
    assert_eq!(child_route(&route(&[]), &"site".to_string()), route(&["site"]));
}

#[test]
fn empty_route_does_not_resolve() {
    let vfs = site();
    assert_eq!(vfs.route_to_path(&route(&[])).unwrap_err(), RouteError::UnknownPartition);
}

#[test]
fn unknown_partition_does_not_resolve() {
    let vfs = site();
    assert_eq!(
        vfs.route_to_path(&route(&["unknown", "x"])).unwrap_err(),
        RouteError::UnknownPartition
    );
}

#[test]
fn nothing_resolves_without_partitions() {
    let vfs = Vfs::new(Silent);
    assert_eq!(vfs.route_to_path(&route(&["site"])).unwrap_err(), RouteError::UnknownPartition);
}

#[test]
fn partition_alone_resolves_to_its_root() {
    let vfs = site();
    let path = vfs.route_to_path(&route(&["site"])).unwrap();
    assert_eq!(path.root, "/tmp/site");
    assert_eq!(path.relative, None);
}

#[test]
fn longer_route_resolves_below_the_root() {
    let vfs = site();
    let path = vfs.route_to_path(&route(&["site", "posts", "foo.md"])).unwrap();
    assert_eq!(path.root, "/tmp/site");
    assert_eq!(path.relative, Some("posts/foo.md".to_string()));
}

#[test]
fn single_segment_below_the_root() {
    let vfs = site();
    let path = vfs.route_to_path(&route(&["site", "index.html"])).unwrap();
    assert_eq!(path.root, "/tmp/site");
    assert_eq!(path.relative, Some("index.html".to_string()));
}

#[test]
fn later_registration_replaces_the_root() {
    let mut vfs = site();
    vfs.add_partition("site".to_string(), "/srv/site".to_string());
    let path = vfs.route_to_path(&route(&["site"])).unwrap();
    assert_eq!(path.root, "/srv/site");
}

#[test]
fn partitions_resolve_independently() {
    let mut vfs = site();
    vfs.add_partition("assets".to_string(), "/var/assets".to_string());
    assert_eq!(vfs.route_to_path(&route(&["site", "a"])).unwrap().root, "/tmp/site");
    assert_eq!(vfs.route_to_path(&route(&["assets", "a"])).unwrap().root, "/var/assets");
}

#[test]
fn registering_a_partition_leaves_the_log_alone() {
    let mut vfs = site();
    vfs.record_changes(3, Some(vec![route(&["site", "a"])]));
    vfs.add_partition("assets".to_string(), "/var/assets".to_string());
    assert_eq!(vfs.change_history.len(), 1);
}

#[test]
fn read_of_unknown_partition_is_a_route_error() {
    let vfs = site();
    let entry = FsEntry::File { contents: Some("hi".to_string()) };
    let outcome = vfs.read(&route(&["unknown", "x"]), &entry);
    assert_eq!(outcome.unwrap_err(), VfsError::Route(RouteError::UnknownPartition));
}

#[test]
fn read_of_empty_route_is_a_route_error() {
    let vfs = site();
    let entry = FsEntry::Dir { entries: Some(Vec::new()) };
    let outcome = vfs.read(&route(&[]), &entry);
    assert_eq!(outcome.unwrap_err(), VfsError::Route(RouteError::UnknownPartition));
}

#[test]
fn route_error_becomes_a_vfs_error() {
    assert_eq!(
        VfsError::from_route(RouteError::UnknownPartition),
        VfsError::Route(RouteError::UnknownPartition)
    );
}

#[test]
fn write_is_not_provided() {
    let vfs = site();
    let item = vfs
        .read(&route(&["site"]), &FsEntry::File { contents: Some("x".to_string()) })
        .unwrap();
    assert_eq!(vfs.write(&route(&["site"]), item), Err(VfsError::UnsupportedOperation));
}

#[test]
fn delete_is_not_provided() {
    let vfs = site();
    assert_eq!(vfs.delete(&route(&["site", "a"])), Err(VfsError::UnsupportedOperation));
    assert_eq!(vfs.delete(&route(&["unknown"])), Err(VfsError::UnsupportedOperation));
}
