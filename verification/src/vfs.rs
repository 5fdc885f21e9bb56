use vstd::prelude::*;
use vstd::hash_map::StringHashMap;
use vstd::slice::slice_subrange;
use std::time::Instant;
use crate::change::{
    lemma_recent_is_filter, log_view, recent, sorted, stamped, suffix_start, ChangeView, VfsChange,
};
use crate::clock::{
    clock_elapsed, clock_now, duration_secs, duration_subsec_nanos, is_reading, to_nanos,
};
use crate::error::{RouteError, VfsError};
use crate::gateway::PluginGateway;
use crate::item::{item_wf, VfsItem};
use crate::reader::{outcome_view, read_path, snapshot, FsEntry};
use crate::route::{join_segments, joined, route_view};

verus! {

/// Where a route lies on the physical filesystem: the root of its partition
/// and, unless the route names the root itself, the relative path below it.
///
/// The two are kept apart so that the root is never joined with an empty
/// relative path.
#[derive(Debug)]
pub struct PhysicalPath {
    pub root: String,
    pub relative: Option<String>,
}

/// A physical location as the contracts see it.
pub struct PathView {
    pub root: Seq<char>,
    pub relative: Option<Seq<char>>,
}

impl View for PhysicalPath {
    type V = PathView;

    open spec fn view(&self) -> PathView {
        PathView {
            root: self.root@,
            relative: match self.relative {
                Some(path) => Some(path@),
                None => None,
            },
        }
    }
}

/// Where `route` lies, given the partitions: its first segment names the
/// partition, the rest is the path below the partition's root.
pub open spec fn resolve(partitions: Map<Seq<char>, Seq<char>>, route: Seq<Seq<char>>) -> Result<
    PathView,
    RouteError,
> {
    if route.len() == 0 || !partitions.contains_key(route[0]) {
        Err(RouteError::UnknownPartition)
    } else if route.len() == 1 {
        Ok(PathView { root: partitions[route[0]], relative: None })
    } else {
        Ok(PathView { root: partitions[route[0]], relative: Some(joined(route.skip(1))) })
    }
}

/// The outcome of a resolution as the contracts see it.
pub open spec fn resolution_view(outcome: Result<PhysicalPath, RouteError>) -> Result<
    PathView,
    RouteError,
> {
    match outcome {
        Ok(path) => Ok(path@),
        Err(e) => Err(e),
    }
}

/// A virtual layer over several parts of the filesystem.
///
/// Routes are lists of segments. The first names a partition, which stands for
/// a physical root; the rest is a path below that root.
pub struct Vfs<G: PluginGateway> {
    /// The root of each partition, by its name. Roots are absolute paths.
    pub partitions: StringHashMap<String>,
    /// When the overlay was made: the origin of every timestamp.
    pub start_time: Instant,
    /// The changes recorded so far, oldest first.
    pub change_history: Vec<VfsChange>,
    /// The gateway that every raw change is run through.
    pub plugin_chain: G,
}

impl<G: PluginGateway> Vfs<G> {
    /// The partition table as the contracts see it.
    pub open spec fn partition_roots(&self) -> Map<Seq<char>, Seq<char>> {
        Map::new(
            |name: Seq<char>| self.partitions@.contains_key(name),
            |name: Seq<char>| self.partitions@[name]@,
        )
    }

    /// The change log as the contracts see it.
    pub open spec fn history(&self) -> Seq<ChangeView> {
        log_view(self.change_history@)
    }

    /// An overlay without partitions and without recorded changes, whose
    /// clock starts now.
    pub fn new(plugin_chain: G) -> (vfs: Vfs<G>)
        ensures
            vfs.partition_roots() == Map::<Seq<char>, Seq<char>>::empty(),
            vfs.history() == Seq::<ChangeView>::empty(),
            vfs.plugin_chain == plugin_chain,
    {
        let vfs = Vfs {
            partitions: StringHashMap::new(),
            start_time: clock_now(),
            change_history: Vec::new(),
            plugin_chain,
        };
        assert(vfs.partition_roots() =~= Map::<Seq<char>, Seq<char>>::empty());
        assert(vfs.history() =~= Seq::<ChangeView>::empty());
        vfs
    }

    /// Registers the partition `name` with the physical root `root`. A
    /// partition registered before under that name is replaced.
    pub fn add_partition(&mut self, name: String, root: String)
        ensures
            final(self).partition_roots() == old(self).partition_roots().insert(name@, root@),
            final(self).history() == old(self).history(),
            final(self).start_time == old(self).start_time,
            final(self).plugin_chain == old(self).plugin_chain,
    {
        let ghost key = name@;
        let ghost value = root@;
        self.partitions.insert(name, root);
        assert(self.partition_roots() =~= old(self).partition_roots().insert(key, value));
    }

    /// Resolves a route to its physical location.
    pub fn route_to_path(&self, route: &[String]) -> (outcome: Result<PhysicalPath, RouteError>)
        ensures
            resolution_view(outcome) == resolve(self.partition_roots(), route_view(route@)),
    {
        if route.len() == 0 {
            return Err(RouteError::UnknownPartition);
        }
        let root = match self.partitions.get(route[0].as_str()) {
            Some(root) => root,
            None => {
                return Err(RouteError::UnknownPartition);
            },
        };
        if route.len() == 1 {
            Ok(PhysicalPath { root: root.clone(), relative: None })
        } else {
            let rest = slice_subrange(route, 1, route.len());
            assert(route_view(rest@) =~= route_view(route@).skip(1));
            Ok(PhysicalPath { root: root.clone(), relative: Some(join_segments(rest)) })
        }
    }

    /// The time since the overlay was made, in nanoseconds: the whole seconds
    /// and the further nanoseconds that the clock gives, put together. Which
    /// reading it is depends on the clock; `to_nanos` says what each reading
    /// amounts to.
    pub fn current_time(&self) -> (time: i128)
        ensures
            is_reading(time as int),
    {
        let elapsed = clock_elapsed(&self.start_time);
        let secs = duration_secs(&elapsed);
        let subsec_nanos = duration_subsec_nanos(&elapsed);
        to_nanos(secs, subsec_nanos)
    }

    /// Appends what an expansion yielded to the change log: one entry for each
    /// route, in order, all stamped `timestamp`. Where the expansion yielded
    /// nothing, the log stays as it is.
    pub fn record_changes(&mut self, timestamp: i128, routes: Option<Vec<Vec<String>>>)
        ensures
            final(self).history() == old(self).history() + stamped(
                timestamp as int,
                routes_view(routes),
            ),
            final(self).partition_roots() == old(self).partition_roots(),
            final(self).start_time == old(self).start_time,
            final(self).plugin_chain == old(self).plugin_chain,
    {
        match routes {
            Some(list) => {
                let ghost before = self.history();
                let ghost added = stamped(timestamp as int, routes_view(Some(list)));
                let ghost total = list@;
                for route in it: list.into_iter()
                    invariant
                        it.seq() == total,
                        added == stamped(timestamp as int, Some(routes_list_view(total))),
                        self.partitions == old(self).partitions,
                        self.start_time == old(self).start_time,
                        self.plugin_chain == old(self).plugin_chain,
                        self.history() == before + added.take(it.index() as int),
                {
                    let ghost done = it.index() as int;
                    let ghost so_far = self.history();
                    self.change_history.push(VfsChange { timestamp, route });
                    proof {
                        assert(added[done] == ChangeView {
                            timestamp: timestamp as int,
                            route: route_view(route@),
                        });
                        assert(self.history() =~= so_far.push(added[done]));
                        assert(added.take(done + 1) =~= added.take(done).push(added[done]));
                    }
                }
                assert(added.take(total.len() as int) =~= added);
            },
            None => {
                assert(self.history() =~= old(self).history() + stamped(
                    timestamp as int,
                    routes_view(routes),
                ));
            },
        }
    }

    /// Runs `route` through the gateway, once, and records what it answers:
    /// one entry for each route of the answer, in order, every entry stamped
    /// `timestamp`. Where the gateway answers with nothing, the log stays as
    /// it is.
    pub fn add_change(&mut self, timestamp: i128, route: Vec<String>)
        ensures
            exists|answer: Option<Vec<Vec<String>>>|
                #[trigger] call_ensures(
                    G::handle_file_change,
                    (&old(self).plugin_chain, &route),
                    answer,
                ) && final(self).history() == old(self).history() + stamped(
                    timestamp as int,
                    routes_view(answer),
                ),
            final(self).partition_roots() == old(self).partition_roots(),
            final(self).start_time == old(self).start_time,
            final(self).plugin_chain == old(self).plugin_chain,
    {
        let routes = self.plugin_chain.handle_file_change(&route);
        let ghost answer = routes;
        self.record_changes(timestamp, routes);
        assert(call_ensures(G::handle_file_change, (&old(self).plugin_chain, &route), answer));
    }

    /// The changes recorded at or after `timestamp`: the longest run of such
    /// entries that ends the log. For a log whose times never go down these
    /// are all the entries at or after `timestamp`.
    pub fn changes_since(&self, timestamp: i128) -> (changes: &[VfsChange])
        ensures
            log_view(changes@) == recent(self.history(), timestamp as int),
            sorted(self.history()) ==> log_view(changes@) == self.history().filter(
                |c: ChangeView| c.timestamp >= timestamp as int,
            ),
    {
        let mut start: usize = self.change_history.len();
        assert(self.history().take(start as int) =~= self.history());
        while start > 0 && self.change_history[start - 1].timestamp >= timestamp
            invariant
                start <= self.change_history.len(),
                suffix_start(self.history(), timestamp as int) == suffix_start(
                    self.history().take(start as int),
                    timestamp as int,
                ),
            decreases start,
        {
            proof {
                let part = self.history().take(start as int);
                assert(part.last() == self.change_history[start - 1]@);
                assert(part.drop_last() =~= self.history().take(start - 1));
            }
            start -= 1;
        }
        proof {
            let part = self.history().take(start as int);
            if start > 0 {
                assert(part.last() == self.change_history[start - 1]@);
            }
            assert(suffix_start(part, timestamp as int) == start);
        }
        let changes = slice_subrange(self.change_history.as_slice(), start, self.change_history.len());
        proof {
            assert(log_view(changes@) =~= recent(self.history(), timestamp as int));
            if sorted(self.history()) {
                lemma_recent_is_filter(self.history(), timestamp as int);
            }
        }
        changes
    }

    /// Reads the entry found at the physical location of `route` into a
    /// snapshot. It fails where the route does not resolve and where the entry
    /// itself cannot be read; a child that cannot be read is left out.
    pub fn read(&self, route: &[String], entry: &FsEntry) -> (outcome: Result<VfsItem, VfsError>)
        ensures
            outcome_view(outcome) == match resolve(self.partition_roots(), route_view(route@)) {
                Ok(_) => snapshot(route_view(route@), *entry),
                Err(e) => Err(VfsError::Route(e)),
            },
            outcome matches Ok(item) ==> {
            &&& item_wf(item)
            &&& item@.route() == route_view(route@)
            &&& item@.well_formed()
        },
    {
        match self.route_to_path(route) {
            Ok(_) => read_path(route, entry),
            Err(e) => Err(VfsError::from_route(e)),
        }
    }

    /// Writing is not provided: the call always fails.
    pub fn write(&self, _route: &[String], _item: VfsItem) -> (outcome: Result<(), VfsError>)
        ensures
            outcome == Err::<(), VfsError>(VfsError::UnsupportedOperation),
    {
        Err(VfsError::UnsupportedOperation)
    }

    /// Deleting is not provided: the call always fails.
    pub fn delete(&self, _route: &[String]) -> (outcome: Result<(), VfsError>)
        ensures
            outcome == Err::<(), VfsError>(VfsError::UnsupportedOperation),
    {
        Err(VfsError::UnsupportedOperation)
    }
}

/// A list of routes as the contracts see it.
pub open spec fn routes_list_view(routes: Seq<Vec<String>>) -> Seq<Seq<Seq<char>>> {
    Seq::new(routes.len(), |i: int| route_view(routes[i]@))
}

/// What a gateway yielded, as the contracts see it.
pub open spec fn routes_view(routes: Option<Vec<Vec<String>>>) -> Option<Seq<Seq<Seq<char>>>> {
    match routes {
        Some(list) => Some(routes_list_view(list@)),
        None => None,
    }
}

} // verus!
