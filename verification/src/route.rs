use vstd::prelude::*;
use vstd::string::StringExecFns;

verus! {

/// A route as the contracts see it: its segments, each as a sequence of characters.
pub open spec fn route_view(route: Seq<String>) -> Seq<Seq<char>> {
    Seq::new(route.len(), |i: int| route[i]@)
}

/// The segments written one after another with a `/` between neighbours.
pub open spec fn joined(segments: Seq<Seq<char>>) -> Seq<char>
    decreases segments.len(),
{
    if segments.len() == 0 {
        Seq::empty()
    } else if segments.len() == 1 {
        segments[0]
    } else {
        joined(segments.drop_last()) + seq!['/'] + segments.last()
    }
}

/// An owned copy of a route.
pub fn clone_route(route: &[String]) -> (copy: Vec<String>)
    ensures
        route_view(copy@) == route_view(route@),
{
    let mut copy: Vec<String> = Vec::new();
    let mut i: usize = 0;
    while i < route.len()
        invariant
            i <= route.len(),
            copy.len() == i,
            forall|j: int| 0 <= j < i ==> copy[j]@ == route[j]@,
        decreases route.len() - i,
    {
        copy.push(route[i].clone());
        i += 1;
    }
    assert(route_view(copy@) =~= route_view(route@));
    copy
}

/// The route of the child called `name` below `route`.
pub fn child_route(route: &[String], name: &String) -> (child: Vec<String>)
    ensures
        route_view(child@) == route_view(route@).push(name@),
{
    let mut child = clone_route(route);
    proof {
        assert(child.len() == route_view(child@).len());
        assert(route.len() == route_view(route@).len());
        assert forall|j: int| 0 <= j < child.len() implies child[j]@ == route[j]@ by {
            assert(route_view(child@)[j] == route_view(route@)[j]);
        }
    }
    child.push(name.clone());
    assert(route_view(child@) =~= route_view(route@).push(name@));
    child
}

/// Joins the segments into one relative path, with `/` as the separator.
pub fn join_segments(segments: &[String]) -> (path: String)
    ensures
        path@ == joined(route_view(segments@)),
{
    let mut path = String::new();
    let ghost all = route_view(segments@);
    let mut i: usize = 0;
    while i < segments.len()
        invariant
            i <= segments.len(),
            all == route_view(segments@),
            path@ == joined(all.take(i as int)),
        decreases segments.len() - i,
    {
        proof {
            reveal_strlit("/");
            let next = all.take(i + 1);
            assert(next.drop_last() =~= all.take(i as int));
            assert(next.last() == segments[i as int]@);
            if i == 0 {
                assert(joined(next) == segments[0]@);
            } else {
                assert("/"@ =~= seq!['/']);
            }
        }
        if i > 0 {
            path.append("/");
        }
        path.append(segments[i].as_str());
        i += 1;
    }
    assert(all.take(i as int) =~= all);
    path
}

} // verus!
