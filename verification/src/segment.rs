//! Steps of a key path: an object key or an array index.
use vstd::prelude::*;

verus! {

/// One step from a JSON value to a value inside it.
#[derive(Clone, Debug)]
pub enum PathSegment {
    /// The value under this key of an object.
    Key(String),
    /// The element at this position of an array.
    Index(usize),
}

/// A path step as the contracts see it.
pub enum SegmentView {
    Key(Seq<char>),
    Index(nat),
}

impl View for PathSegment {
    type V = SegmentView;

    open spec fn view(&self) -> SegmentView {
        match self {
            PathSegment::Key(key) => SegmentView::Key(key@),
            PathSegment::Index(index) => SegmentView::Index(*index as nat),
        }
    }
}

/// The steps of a path, as the contracts see them.
pub open spec fn path_view(path: Seq<PathSegment>) -> Seq<SegmentView> {
    path.map_values(|segment: PathSegment| segment@)
}

impl PathSegment {
    /// A copy of this step.
    pub fn duplicate(&self) -> (copy: PathSegment)
        ensures
            copy@ == self@,
    {
        match self {
            PathSegment::Key(key) => PathSegment::Key(key.clone()),
            PathSegment::Index(index) => PathSegment::Index(*index),
        }
    }
}

/// A copy of a whole path.
pub fn copy_path(path: &[PathSegment]) -> (copy: Vec<PathSegment>)
    ensures
        path_view(copy@) == path_view(path@),
{
    let mut copy: Vec<PathSegment> = Vec::new();
    let mut i: usize = 0;
    while i < path.len()
        invariant
            i <= path@.len(),
            copy@.len() == i,
            forall|j: int| 0 <= j < i ==> #[trigger] copy@[j]@ == path@[j]@,
        decreases path@.len() - i,
    {
        let segment = path[i].duplicate();
        copy.push(segment);
        i = i + 1;
    }
    assert(path_view(copy@) =~= path_view(path@));
    copy
}

} // verus!
