use vstd::prelude::*;

verus! {

/// The capability that expands one raw changed route into the routes to record.
///
/// An implementation may yield several routes, an empty list, or `None` to
/// suppress the change altogether. The overlay relies on nothing about the
/// answer: it records whatever comes back.
pub trait PluginGateway {
    fn handle_file_change(&self, route: &Vec<String>) -> Option<Vec<Vec<String>>>;
}

} // verus!
