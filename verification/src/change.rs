use vstd::prelude::*;
use crate::route::route_view;

verus! {

/// One recorded change: the route that changed, and when, in nanoseconds since
/// the overlay was made. A time before that moment is negative.
#[derive(Debug)]
pub struct VfsChange {
    pub timestamp: i128,
    pub route: Vec<String>,
}

/// A recorded change as the contracts see it.
pub struct ChangeView {
    pub timestamp: int,
    pub route: Seq<Seq<char>>,
}

impl View for VfsChange {
    type V = ChangeView;

    open spec fn view(&self) -> ChangeView {
        ChangeView { timestamp: self.timestamp as int, route: route_view(self.route@) }
    }
}

/// A change log as the contracts see it.
pub open spec fn log_view(log: Seq<VfsChange>) -> Seq<ChangeView> {
    Seq::new(log.len(), |i: int| log[i]@)
}

/// The entries that one expansion adds to the log: one for each route, in
/// order, all with the same time; none where the expansion yields nothing.
pub open spec fn stamped(timestamp: int, routes: Option<Seq<Seq<Seq<char>>>>) -> Seq<ChangeView> {
    match routes {
        Some(list) => Seq::new(list.len(), |i: int| ChangeView { timestamp, route: list[i] }),
        None => Seq::empty(),
    }
}

/// No entry of the log is earlier than the one before it.
pub open spec fn sorted(log: Seq<ChangeView>) -> bool {
    forall|i: int, j: int| 0 <= i <= j < log.len() ==> log[i].timestamp <= log[j].timestamp
}

/// Where the longest run of entries at or after `timestamp` that ends the log
/// begins. It is the length of the log where the last entry is earlier.
pub open spec fn suffix_start(log: Seq<ChangeView>, timestamp: int) -> nat
    decreases log.len(),
{
    if log.len() == 0 {
        0
    } else if log.last().timestamp < timestamp {
        log.len()
    } else {
        suffix_start(log.drop_last(), timestamp)
    }
}

/// The entries of the log from `suffix_start` on.
pub open spec fn recent(log: Seq<ChangeView>, timestamp: int) -> Seq<ChangeView> {
    log.subrange(suffix_start(log, timestamp) as int, log.len() as int)
}

/// What the scan from the end finds: every entry from `suffix_start` on is at
/// or after `timestamp`, and the entry just before it, if there is one, is
/// earlier. No longer suffix has only entries at or after `timestamp`.
pub proof fn lemma_suffix_start_maximal(log: Seq<ChangeView>, timestamp: int)
    ensures
        suffix_start(log, timestamp) <= log.len(),
        forall|j: int|
            suffix_start(log, timestamp) <= j < log.len() ==> (#[trigger] log[j]).timestamp
                >= timestamp,
        suffix_start(log, timestamp) > 0 ==> log[suffix_start(log, timestamp) - 1].timestamp
            < timestamp,
    decreases log.len(),
{
    if log.len() > 0 && log.last().timestamp >= timestamp {
        let front = log.drop_last();
        lemma_suffix_start_maximal(front, timestamp);
        assert forall|j: int| suffix_start(log, timestamp) <= j < log.len() implies (
        #[trigger] log[j]).timestamp >= timestamp by {
            if j < front.len() {
                assert(log[j] == front[j]);
            }
        }
        if suffix_start(log, timestamp) > 0 {
            assert(log[suffix_start(log, timestamp) - 1] == front[suffix_start(front, timestamp)
                - 1]);
        }
    }
}

/// In a log whose times never go down, the entries from `suffix_start` on are
/// exactly the entries at or after `timestamp`, in their order.
pub proof fn lemma_recent_is_filter(log: Seq<ChangeView>, timestamp: int)
    requires
        sorted(log),
    ensures
        recent(log, timestamp) == log.filter(|c: ChangeView| c.timestamp >= timestamp),
        forall|j: int|
            0 <= j < log.len() ==> ((#[trigger] log[j]).timestamp >= timestamp <==> j
                >= suffix_start(log, timestamp)),
    decreases log.len(),
{
    let keep = |c: ChangeView| c.timestamp >= timestamp;
    reveal(Seq::filter);
    lemma_suffix_start_maximal(log, timestamp);
    if log.len() == 0 {
        assert(recent(log, timestamp) =~= log.filter(keep));
    } else {
        let front = log.drop_last();
        assert(sorted(front)) by {
            assert forall|i: int, j: int| 0 <= i <= j < front.len() implies front[i].timestamp
                <= front[j].timestamp by {
                assert(log[i].timestamp <= log[j].timestamp);
            }
        }
        lemma_recent_is_filter(front, timestamp);
        lemma_suffix_start_maximal(front, timestamp);
        if log.last().timestamp < timestamp {
            assert(suffix_start(front, timestamp) == front.len()) by {
                if suffix_start(front, timestamp) < front.len() {
                    let j = suffix_start(front, timestamp) as int;
                    assert(front[j].timestamp >= timestamp);
                    assert(log[j].timestamp <= log[log.len() - 1].timestamp);
                }
            }
            assert(recent(front, timestamp) =~= Seq::empty());
            assert(recent(log, timestamp) =~= Seq::empty());
        } else {
            assert(recent(log, timestamp) =~= recent(front, timestamp).push(log.last()));
        }
        assert forall|j: int| 0 <= j < log.len() implies ((#[trigger] log[j]).timestamp
            >= timestamp <==> j >= suffix_start(log, timestamp)) by {
            if j < suffix_start(log, timestamp) {
                let k = suffix_start(log, timestamp) - 1;
                assert(log[j].timestamp <= log[k].timestamp);
            }
        }
    }
}

/// An expansion that yields nothing, or an empty list, leaves the log as it is.
pub proof fn lemma_stamped_nothing(
    log: Seq<ChangeView>,
    timestamp: int,
    routes: Option<Seq<Seq<Seq<char>>>>,
)
    requires
        routes matches Some(list) ==> list.len() == 0,
    ensures
        log + stamped(timestamp, routes) == log,
{
    assert(log + stamped(timestamp, routes) =~= log);
}

/// An expansion that yields the routes `first` and `second` adds two entries
/// at the end of the log: `first`, then `second`, both with the given time.
pub proof fn lemma_stamped_pair(
    log: Seq<ChangeView>,
    timestamp: int,
    first: Seq<Seq<char>>,
    second: Seq<Seq<char>>,
)
    ensures
        log + stamped(timestamp, Some(seq![first, second])) == log.push(
            ChangeView { timestamp, route: first },
        ).push(ChangeView { timestamp, route: second }),
{
    assert(log + stamped(timestamp, Some(seq![first, second])) =~= log.push(
        ChangeView { timestamp, route: first },
    ).push(ChangeView { timestamp, route: second }));
}

/// An expansion adds one entry for each route that it yields, behind the
/// entries that the log held, which stay as they were.
pub proof fn lemma_stamped_appends(
    log: Seq<ChangeView>,
    timestamp: int,
    routes: Seq<Seq<Seq<char>>>,
)
    ensures
        (log + stamped(timestamp, Some(routes))).len() == log.len() + routes.len(),
        forall|i: int| 0 <= i < log.len() ==> (log + stamped(timestamp, Some(routes)))[i] == log[i],
        forall|i: int|
            0 <= i < routes.len() ==> (log + stamped(timestamp, Some(routes)))[log.len() + i]
                == (ChangeView { timestamp, route: routes[i] }),
{
}

/// A log whose times never go down stays so when the entries added to it are
/// stamped no earlier than its last entry.
pub proof fn lemma_stamped_keeps_sorted(
    log: Seq<ChangeView>,
    timestamp: int,
    routes: Option<Seq<Seq<Seq<char>>>>,
)
    requires
        sorted(log),
        log.len() > 0 ==> log.last().timestamp <= timestamp,
    ensures
        sorted(log + stamped(timestamp, routes)),
{
    let after = log + stamped(timestamp, routes);
    assert forall|i: int, j: int| 0 <= i <= j < after.len() implies after[i].timestamp
        <= after[j].timestamp by {
        if i < log.len() {
            assert(log[i].timestamp <= log[log.len() - 1].timestamp);
        }
    }
}

} // verus!
