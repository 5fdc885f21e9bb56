use vstd::prelude::*;
use crate::error::VfsError;
use crate::item::{children_view, insert_child, item_wf, names_unique, ItemView, VfsItem};
use crate::route::{child_route, clone_route, route_view};

verus! {

/// What was found at one physical location, with everything below it.
///
/// This is the raw material of a snapshot: it records what could be inspected
/// and what could not, and decides nothing.
#[derive(Debug)]
pub enum FsEntry {
    /// The location could not be inspected: it is missing, or access was denied.
    Unreadable,
    /// A regular file, with its text where it could be read as text.
    File { contents: Option<String> },
    /// A directory, with its direct children by name where it could be listed
    /// in full.
    Dir { entries: Option<Vec<(String, FsEntry)>> },
    /// Something that is neither a regular file nor a directory.
    Other,
}

/// The snapshot of a file under `route`: it fails where the text is missing.
pub open spec fn snapshot_file(route: Seq<Seq<char>>, contents: Option<String>) -> Result<
    ItemView,
    VfsError,
> {
    match contents {
        Some(text) => Ok(ItemView::File { route, contents: text@ }),
        None => Err(VfsError::Read),
    }
}

/// The snapshot of a directory under `route`: it fails where the listing is
/// missing, and otherwise holds every child that has a snapshot.
pub open spec fn snapshot_dir(
    route: Seq<Seq<char>>,
    entries: Option<Vec<(String, FsEntry)>>,
) -> Result<ItemView, VfsError>
    decreases entries, 1nat,
{
    match entries {
        Some(listing) => Ok(
            ItemView::Dir { route, children: snapshot_children(route, listing@, listing@.len()) },
        ),
        None => Err(VfsError::Read),
    }
}

/// The children that the first `n` entries of a listing contribute: an entry
/// that has a snapshot is held under its name, one that has none is left out.
pub open spec fn snapshot_children(
    route: Seq<Seq<char>>,
    listing: Seq<(String, FsEntry)>,
    n: nat,
) -> Map<Seq<char>, ItemView>
    decreases listing, n,
{
    if n == 0 || n > listing.len() {
        Map::empty()
    } else {
        let earlier = snapshot_children(route, listing, (n - 1) as nat);
        let name = listing[n - 1].0@;
        match snapshot(route.push(name), listing[n - 1].1) {
            Ok(child) => earlier.insert(name, child),
            Err(_) => earlier,
        }
    }
}

/// The snapshot of `entry` under `route`, or the reason why there is none.
pub open spec fn snapshot(route: Seq<Seq<char>>, entry: FsEntry) -> Result<ItemView, VfsError>
    decreases entry, 0nat,
{
    match entry {
        FsEntry::Unreadable => Err(VfsError::Read),
        FsEntry::File { contents } => snapshot_file(route, contents),
        FsEntry::Dir { entries } => snapshot_dir(route, entries),
        FsEntry::Other => Err(VfsError::UnsupportedType),
    }
}

/// The outcome of a read as the contracts see it.
pub open spec fn outcome_view(outcome: Result<VfsItem, VfsError>) -> Result<ItemView, VfsError> {
    match outcome {
        Ok(item) => Ok(item@),
        Err(e) => Err(e),
    }
}

/// Reads a regular file into a snapshot.
pub fn read_file(route: &[String], contents: &Option<String>) -> (outcome: Result<
    VfsItem,
    VfsError,
>)
    ensures
        outcome_view(outcome) == snapshot_file(route_view(route@), *contents),
        outcome matches Ok(item) ==> {
            &&& item_wf(item)
            &&& item@.route() == route_view(route@)
            &&& item@.well_formed()
        },
{
    match contents {
        Some(text) => Ok(VfsItem::File { route: clone_route(route), contents: text.clone() }),
        None => Err(VfsError::Read),
    }
}

/// Reads a directory into a snapshot. A child that cannot be read is left out;
/// the directory itself fails only where it could not be listed.
pub fn read_dir(route: &[String], entries: &Option<Vec<(String, FsEntry)>>) -> (outcome: Result<
    VfsItem,
    VfsError,
>)
    ensures
        outcome_view(outcome) == snapshot_dir(route_view(route@), *entries),
        outcome matches Ok(item) ==> {
            &&& item_wf(item)
            &&& item@.route() == route_view(route@)
            &&& item@.well_formed()
        },
    decreases entries, 1nat,
{
    let listing = match entries {
        Some(listing) => listing,
        None => {
            return Err(VfsError::Read);
        },
    };
    let ghost parent = route_view(route@);
    let mut children: Vec<(String, VfsItem)> = Vec::new();
    let mut i: usize = 0;
    while i < listing.len()
        invariant
            i <= listing.len(),
            *entries == Some(*listing),
            parent == route_view(route@),
            names_unique(children@),
            forall|k: int| 0 <= k < children@.len() ==> item_wf((#[trigger] children@[k]).1),
            children_view(children@, children@.len()) == snapshot_children(
                parent,
                listing@,
                i as nat,
            ),
        decreases listing.len() - i,
    {
        let name = &listing[i].0;
        let below = child_route(route, name);
        assert(decreases_to!(*entries => listing[i as int].1)) by {
            assert(entries->0 == *listing);
        }
        match read_path(below.as_slice(), &listing[i].1) {
            Ok(item) => {
                insert_child(&mut children, name.clone(), item);
            },
            Err(_) => {},
        }
        i += 1;
    }
    proof {
        lemma_snapshot_well_formed(parent, FsEntry::Dir { entries: *entries });
    }
    Ok(VfsItem::Dir { route: clone_route(route), children })
}

/// Reads whatever `entry` is into a snapshot under `route`.
pub fn read_path(route: &[String], entry: &FsEntry) -> (outcome: Result<VfsItem, VfsError>)
    ensures
        outcome_view(outcome) == snapshot(route_view(route@), *entry),
        outcome matches Ok(item) ==> {
            &&& item_wf(item)
            &&& item@.route() == route_view(route@)
            &&& item@.well_formed()
        },
    decreases entry, 0nat,
{
    match entry {
        FsEntry::Unreadable => Err(VfsError::Read),
        FsEntry::File { contents } => read_file(route, contents),
        FsEntry::Dir { entries } => read_dir(route, entries),
        FsEntry::Other => Err(VfsError::UnsupportedType),
    }
}

/// No two entries of the listing share a name.
pub open spec fn names_distinct(listing: Seq<(String, FsEntry)>) -> bool {
    forall|i: int, j: int|
        0 <= i < j < listing.len() ==> (#[trigger] listing[i]).0@ != (#[trigger] listing[j]).0@
}

/// Whether the entry at `i` of a listing below `route` has a snapshot.
pub open spec fn readable(route: Seq<Seq<char>>, listing: Seq<(String, FsEntry)>, i: int) -> bool {
    snapshot(route.push(listing[i].0@), listing[i].1) is Ok
}

/// How many of the first `n` entries of a listing below `route` have a snapshot.
pub open spec fn readable_count(
    route: Seq<Seq<char>>,
    listing: Seq<(String, FsEntry)>,
    n: nat,
) -> nat
    decreases n,
{
    if n == 0 || n > listing.len() {
        0
    } else if readable(route, listing, n - 1) {
        readable_count(route, listing, (n - 1) as nat) + 1
    } else {
        readable_count(route, listing, (n - 1) as nat)
    }
}

/// A snapshot carries the route under which it was read.
pub proof fn lemma_snapshot_route(route: Seq<Seq<char>>, entry: FsEntry)
    ensures
        snapshot(route, entry) matches Ok(item) ==> item.route() == route,
{
}

/// Of a listing without repeated names, the children of the snapshot are the
/// entries that have a snapshot, each under its own name: as many as there are
/// such entries, however many others the listing holds.
pub proof fn lemma_snapshot_children(
    route: Seq<Seq<char>>,
    listing: Seq<(String, FsEntry)>,
    n: nat,
)
    requires
        names_distinct(listing),
        n <= listing.len(),
    ensures
        forall|name: Seq<char>|
            snapshot_children(route, listing, n).dom().contains(name) <==> exists|i: int|
                0 <= i < n && (#[trigger] listing[i]).0@ == name && readable(route, listing, i),
        forall|i: int|
            0 <= i < n && readable(route, listing, i) ==> Ok::<ItemView, VfsError>(
                snapshot_children(route, listing, n)[(#[trigger] listing[i]).0@],
            ) == snapshot(route.push(listing[i].0@), listing[i].1),
        snapshot_children(route, listing, n).dom().finite(),
        snapshot_children(route, listing, n).len() == readable_count(route, listing, n),
    decreases n,
{
    if n > 0 {
        let m = (n - 1) as nat;
        lemma_snapshot_children(route, listing, m);
        let earlier = snapshot_children(route, listing, m);
        let name = listing[n - 1].0@;
        assert(!earlier.dom().contains(name)) by {
            if earlier.dom().contains(name) {
                let i = choose|i: int|
                    0 <= i < m && (#[trigger] listing[i]).0@ == name && readable(route, listing, i);
                assert(listing[i].0@ != listing[n - 1].0@);
            }
        }
        assert forall|k: Seq<char>|
            snapshot_children(route, listing, n).dom().contains(k) implies exists|i: int|
            0 <= i < n && (#[trigger] listing[i]).0@ == k && readable(route, listing, i) by {
            if earlier.dom().contains(k) {
                let i = choose|i: int|
                    0 <= i < m && (#[trigger] listing[i]).0@ == k && readable(route, listing, i);
                assert(0 <= i < n && listing[i].0@ == k && readable(route, listing, i));
            } else {
                assert(listing[n - 1].0@ == k && readable(route, listing, n - 1));
            }
        }
        assert forall|k: Seq<char>|
            (exists|i: int|
                0 <= i < n && (#[trigger] listing[i]).0@ == k && readable(
                    route,
                    listing,
                    i,
                )) implies snapshot_children(route, listing, n).dom().contains(k) by {
            let i = choose|i: int|
                0 <= i < n && (#[trigger] listing[i]).0@ == k && readable(route, listing, i);
            if i < m {
                assert(earlier.dom().contains(k));
            }
        }
        assert forall|i: int| 0 <= i < n && readable(route, listing, i) implies Ok::<
            ItemView,
            VfsError,
        >(snapshot_children(route, listing, n)[(#[trigger] listing[i]).0@]) == snapshot(
            route.push(listing[i].0@),
            listing[i].1,
        ) by {
            if i < m {
                assert(listing[i].0@ != listing[n - 1].0@);
            }
        }
    }
}

/// A directory that could be listed has a snapshot whatever its entries are.
/// Where no name repeats in the listing, the snapshot holds exactly the entries
/// that have a snapshot of their own: one child for each, under its name.
pub proof fn lemma_partial_success(route: Seq<Seq<char>>, listing: Vec<(String, FsEntry)>)
    requires
        names_distinct(listing@),
    ensures
        snapshot_dir(route, Some(listing)) is Ok,
        snapshot(route, FsEntry::Dir { entries: Some(listing) }) == snapshot_dir(
            route,
            Some(listing),
        ),
        snapshot_dir(route, Some(listing))->Ok_0.children().dom().finite(),
        snapshot_dir(route, Some(listing))->Ok_0.children().len() == readable_count(
            route,
            listing@,
            listing@.len(),
        ),
        forall|name: Seq<char>|
            snapshot_dir(route, Some(listing))->Ok_0.children().dom().contains(name)
                <==> exists|i: int|
                0 <= i < listing@.len() && (#[trigger] listing@[i]).0@ == name && readable(
                    route,
                    listing@,
                    i,
                ),
{
    lemma_snapshot_children(route, listing@, listing@.len());
}

/// Every snapshot keeps the routes of its entries in step with their names:
/// below each directory, the child held under a name has the directory's route
/// followed by that name.
pub proof fn lemma_snapshot_well_formed(route: Seq<Seq<char>>, entry: FsEntry)
    ensures
        snapshot(route, entry) matches Ok(item) ==> item.well_formed(),
    decreases entry, 0nat,
{
    match entry {
        FsEntry::Dir { entries: Some(listing) } => {
            lemma_children_well_formed(route, listing@, listing@.len());
            assert(snapshot(route, entry) == snapshot_dir(route, Some(listing)));
            let children = snapshot_children(route, listing@, listing@.len());
            assert(snapshot_dir(route, Some(listing)) == Ok::<ItemView, VfsError>(
                ItemView::Dir { route, children },
            ));
            assert forall|name: Seq<char>| children.dom().contains(name) implies (
            #[trigger] children[name]).route() == route.push(name)
                && children[name].well_formed() by {}
        },
        _ => {},
    }
}

/// The children that a listing contributes each carry the route of the
/// directory followed by their name, and are well formed in turn.
pub proof fn lemma_children_well_formed(
    route: Seq<Seq<char>>,
    listing: Seq<(String, FsEntry)>,
    n: nat,
)
    ensures
        forall|name: Seq<char>|
            snapshot_children(route, listing, n).dom().contains(name) ==> {
                &&& (#[trigger] snapshot_children(route, listing, n)[name]).route() == route.push(
                    name,
                )
                &&& snapshot_children(route, listing, n)[name].well_formed()
            },
    decreases listing, n,
{
    if n > 0 && n <= listing.len() {
        let name = listing[n - 1].0@;
        let earlier = snapshot_children(route, listing, (n - 1) as nat);
        let current = snapshot_children(route, listing, n);
        lemma_children_well_formed(route, listing, (n - 1) as nat);
        lemma_snapshot_well_formed(route.push(name), listing[n - 1].1);
        lemma_snapshot_route(route.push(name), listing[n - 1].1);
        assert forall|k: Seq<char>| current.dom().contains(k) implies (#[trigger] current[k]).route()
            == route.push(k) && current[k].well_formed() by {
            if k != name {
                assert(earlier.dom().contains(k));
                assert(current[k] == earlier[k]);
            } else if snapshot(route.push(name), listing[n - 1].1) is Err {
                assert(current == earlier);
            }
        }
    }
}

} // verus!
