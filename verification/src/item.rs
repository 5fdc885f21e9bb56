use vstd::prelude::*;
use crate::route::route_view;

verus! {

/// A snapshot of one entry: a file with its text, or a directory with the
/// snapshots of its children.
///
/// The children of a directory are kept in the order in which they were added,
/// each under its name. The contracts read them as a map from name to child.
#[derive(Debug)]
pub enum VfsItem {
    /// A regular file: its route and its whole text.
    File { route: Vec<String>, contents: String },
    /// A directory: its route and its children, each with its name.
    Dir { route: Vec<String>, children: Vec<(String, VfsItem)> },
}

/// What a snapshot holds, as the contracts see it.
pub enum ItemView {
    File { route: Seq<Seq<char>>, contents: Seq<char> },
    Dir { route: Seq<Seq<char>>, children: Map<Seq<char>, ItemView> },
}

impl ItemView {
    /// The route under which the entry was read.
    pub open spec fn route(self) -> Seq<Seq<char>> {
        match self {
            ItemView::File { route, .. } => route,
            ItemView::Dir { route, .. } => route,
        }
    }

    /// Whether every route in the snapshot is where it belongs: below each
    /// directory, the child held under a name has the directory's route
    /// followed by that name.
    pub open spec fn well_formed(self) -> bool
        decreases self,
    {
        match self {
            ItemView::File { .. } => true,
            ItemView::Dir { route, children } => forall|name: Seq<char>|
                children.dom().contains(name) ==> {
                    &&& (#[trigger] children[name]).route() == route.push(name)
                    &&& children[name].well_formed()
                },
        }
    }

    /// The children of a directory; a file has none.
    pub open spec fn children(self) -> Map<Seq<char>, ItemView> {
        match self {
            ItemView::File { .. } => Map::empty(),
            ItemView::Dir { children, .. } => children,
        }
    }
}

/// The view of a snapshot.
pub open spec fn item_view(item: VfsItem) -> ItemView
    decreases item, 0nat,
{
    match item {
        VfsItem::File { route, contents } => ItemView::File {
            route: route_view(route@),
            contents: contents@,
        },
        VfsItem::Dir { route, children } => ItemView::Dir {
            route: route_view(route@),
            children: children_view(children@, children@.len()),
        },
    }
}

/// The map that the first `n` children make: a later child replaces an earlier
/// one of the same name.
pub open spec fn children_view(children: Seq<(String, VfsItem)>, n: nat) -> Map<Seq<char>, ItemView>
    decreases children, n,
{
    if n == 0 || n > children.len() {
        Map::empty()
    } else {
        children_view(children, (n - 1) as nat).insert(
            children[n - 1].0@,
            item_view(children[n - 1].1),
        )
    }
}

/// No two of the children share a name.
pub open spec fn names_unique(children: Seq<(String, VfsItem)>) -> bool {
    forall|i: int, j: int|
        0 <= i < j < children.len() ==> (#[trigger] children[i]).0@ != (#[trigger] children[j]).0@
}

/// The invariant of a snapshot: in no directory of it does a name occur twice.
pub open spec fn item_wf(item: VfsItem) -> bool
    decreases item,
{
    match item {
        VfsItem::File { .. } => true,
        VfsItem::Dir { children, .. } => {
            &&& names_unique(children@)
            &&& forall|i: int| 0 <= i < children@.len() ==> item_wf((#[trigger] children@[i]).1)
        },
    }
}

impl View for VfsItem {
    type V = ItemView;

    open spec fn view(&self) -> ItemView {
        item_view(*self)
    }
}

impl VfsItem {
    /// The name of the entry: the last segment of its route.
    pub fn name(&self) -> (name: &String)
        requires
            self@.route().len() > 0,
        ensures
            name@ == self@.route().last(),
    {
        let route = self.route();
        &route[route.len() - 1]
    }

    /// The route under which the entry was read.
    pub fn route(&self) -> (route: &[String])
        ensures
            route_view(route@) == self@.route(),
    {
        match self {
            VfsItem::File { route, .. } => route.as_slice(),
            VfsItem::Dir { route, .. } => route.as_slice(),
        }
    }
}

/// In a snapshot that keeps its invariant, a directory holds as many children
/// as its view has names.
pub proof fn lemma_children_len(item: VfsItem)
    requires
        item_wf(item),
    ensures
        item@.children().dom().finite(),
        item matches VfsItem::Dir { children, .. } ==> item@.children().len() == children@.len(),
{
    match item {
        VfsItem::Dir { children, .. } => {
            lemma_children_view_unique(children@, children@.len());
        },
        VfsItem::File { .. } => {},
    }
}

/// Only the first `n` children matter to the map that they make.
pub proof fn lemma_children_view_prefix(
    a: Seq<(String, VfsItem)>,
    b: Seq<(String, VfsItem)>,
    n: nat,
)
    requires
        n <= a.len(),
        n <= b.len(),
        forall|i: int| 0 <= i < n ==> a[i] == b[i],
    ensures
        children_view(a, n) == children_view(b, n),
    decreases n,
{
    if n > 0 {
        lemma_children_view_prefix(a, b, (n - 1) as nat);
    }
}

/// Where no name occurs twice, the map of the first `n` children has one key
/// for each of them, and holds each child under its own name.
pub proof fn lemma_children_view_unique(children: Seq<(String, VfsItem)>, n: nat)
    requires
        names_unique(children),
        n <= children.len(),
    ensures
        forall|k: Seq<char>|
            children_view(children, n).dom().contains(k) <==> exists|i: int|
                0 <= i < n && (#[trigger] children[i]).0@ == k,
        forall|i: int|
            0 <= i < n ==> children_view(children, n)[(#[trigger] children[i]).0@] == item_view(
                children[i].1,
            ),
        children_view(children, n).dom().finite(),
        children_view(children, n).len() == n,
    decreases n,
{
    if n > 0 {
        let m = (n - 1) as nat;
        lemma_children_view_unique(children, m);
        let before = children_view(children, m);
        let name = children[n - 1].0@;
        assert(!before.dom().contains(name)) by {
            if before.dom().contains(name) {
                let i = choose|i: int| 0 <= i < m && (#[trigger] children[i]).0@ == name;
                assert(children[i].0@ != children[n - 1].0@);
            }
        }
        assert forall|k: Seq<char>|
            children_view(children, n).dom().contains(k) implies exists|i: int|
            0 <= i < n && (#[trigger] children[i]).0@ == k by {
            if k == name {
                assert(children[n - 1].0@ == k);
            } else {
                let i = choose|i: int| 0 <= i < m && (#[trigger] children[i]).0@ == k;
                assert(0 <= i < n && children[i].0@ == k);
            }
        }
        assert forall|i: int| 0 <= i < n implies children_view(children, n)[(
            #[trigger] children[i]).0@] == item_view(children[i].1) by {
            if i < m {
                assert(children[i].0@ != children[n - 1].0@);
            }
        }
    }
}

/// Puts `item` under `name` among the children, in place of a child of that
/// name if there is one.
pub fn insert_child(children: &mut Vec<(String, VfsItem)>, name: String, item: VfsItem)
    requires
        names_unique(old(children)@),
    ensures
        names_unique(final(children)@),
        children_view(final(children)@, final(children)@.len()) == children_view(
            old(children)@,
            old(children)@.len(),
        ).insert(name@, item@),
        forall|i: int|
            0 <= i < final(children)@.len() ==> (#[trigger] final(children)@[i]) == (name, item)
                || exists|j: int|
                0 <= j < old(children)@.len() && old(children)@[j] == final(children)@[i],
{
    let ghost before = children@;
    let mut i: usize = 0;
    while i < children.len()
        invariant
            i <= children.len(),
            children@ == before,
            before == old(children)@,
            names_unique(before),
            forall|j: int| 0 <= j < i ==> (#[trigger] before[j]).0@ != name@,
        decreases children.len() - i,
    {
        if children[i].0 == name {
            let ghost key = name@;
            let ghost value = item@;
            children.set(i, (name, item));
            proof {
                let after = children@;
                assert(names_unique(after)) by {
                    assert forall|a: int, b: int| 0 <= a < b < after.len() implies (
                    #[trigger] after[a]).0@ != (#[trigger] after[b]).0@ by {
                        assert(before[a].0@ != before[b].0@);
                    }
                }
                lemma_children_view_unique(before, before.len());
                lemma_children_view_unique(after, after.len());
                let old_map = children_view(before, before.len());
                let new_map = children_view(after, after.len());
                assert forall|k: Seq<char>| new_map.dom().contains(k) <==> old_map.insert(
                    key,
                    value,
                ).dom().contains(k) by {
                    if new_map.dom().contains(k) {
                        let j = choose|j: int| 0 <= j < after.len() && (#[trigger] after[j]).0@ == k;
                        assert(before[j].0@ == k);
                    }
                    if old_map.dom().contains(k) {
                        let j = choose|j: int|
                            0 <= j < before.len() && (#[trigger] before[j]).0@ == k;
                        assert(after[j].0@ == k);
                    }
                    if k == key {
                        assert(after[i as int].0@ == k);
                    }
                }
                assert forall|k: Seq<char>| new_map.dom().contains(k) implies new_map[k]
                    == old_map.insert(key, value)[k] by {
                    let j = choose|j: int| 0 <= j < after.len() && (#[trigger] after[j]).0@ == k;
                    if j == i {
                    } else {
                        assert(before[j].0@ == k);
                        assert(before[i as int].0@ == key);
                        assert(after[j] == before[j]);
                    }
                }
                assert(new_map =~= old_map.insert(key, value));
            }
            return ;
        }
        i += 1;
    }
    children.push((name, item));
    proof {
        lemma_children_view_prefix(children@, before, before.len());
    }
}

} // verus!
