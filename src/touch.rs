use vstd::prelude::*;
use rstar::primitives::{GeomWithData, Rectangle};
use rstar::RTree;
use crate::buttons::{Button, DpadDirection};

verus! {

/// A rectangle entry of the zone tree: lower x, lower y, upper x, upper y, and the
/// index of the zone it stands for.
pub type ZoneEntry = (i32, i32, i32, i32, usize);

/// Whether an entry's closed rectangle holds the point `(x, y)`.
pub open spec fn entry_contains(e: ZoneEntry, x: i32, y: i32) -> bool {
    e.0 <= x <= e.2 && e.1 <= y <= e.3
}

/// An r-tree of axis-aligned rectangles, each tagged with a zone index.
#[verifier::external_body]
pub struct ZoneTree {
    tree: RTree<GeomWithData<Rectangle<[i32; 2]>, usize>>,
}

/// The entries a zone tree was loaded with, in the order they were given.
pub uninterp spec fn tree_entries(t: ZoneTree) -> Seq<ZoneEntry>;

/// Relies on `rstar::RTree::bulk_load` and `Rectangle::from_corners`: the tree holds
/// exactly the given rectangles, each with its tag.
#[verifier::external_body]
fn load_zone_tree(entries: Vec<ZoneEntry>) -> (r: ZoneTree)
    requires
        forall|i: int| 0 <= i < entries@.len() ==> entries@[i].0 <= entries@[i].2 && entries@[i].1 <= entries@[i].3,
    ensures
        tree_entries(r) == entries@,
{
    ZoneTree {
        tree: RTree::bulk_load(
            entries
                .into_iter()
                .map(|(x0, y0, x1, y1, i)| GeomWithData::new(Rectangle::from_corners([x0, y0], [x1, y1]), i))
                .collect(),
        ),
    }
}

/// Relies on `rstar::RTree::locate_at_point`: it returns an element whose rectangle
/// (bounds included) holds the point, and none only when no element does. Which one
/// it returns, among several, is up to the tree's layout.
#[verifier::external_body]
fn locate_in_tree(t: &ZoneTree, x: i32, y: i32) -> (r: Option<usize>)
    ensures
        r matches Some(i) ==> exists|k: int|
            0 <= k < tree_entries(*t).len() && (#[trigger] tree_entries(*t)[k]).4 == i
                && entry_contains(tree_entries(*t)[k], x, y),
        r is None ==> forall|k: int|
            0 <= k < tree_entries(*t).len() ==> !entry_contains(#[trigger] tree_entries(*t)[k], x, y),
        r == tree_pick(tree_entries(*t), x, y),
{
    t.tree.locate_at_point(&[x, y]).map(|e| e.data)
}

/// Which tag `locate_at_point` answers for a point, on a tree loaded with these entries.
pub uninterp spec fn tree_pick(entries: Seq<ZoneEntry>, x: i32, y: i32) -> Option<usize>;

} // verus!

verus! {

/// A point on a touch surface.
#[derive(Clone, Copy, Debug, PartialEq, Eq, Structural)]
pub struct Point(pub i32, pub i32);

impl Point {
    #[inline]
    pub fn x(&self) -> (r: i32)
        ensures
            r == self.0,
    {
        self.0
    }

    #[inline]
    pub fn y(&self) -> (r: i32)
        ensures
            r == self.1,
    {
        self.1
    }
}

/// What touching a zone does: press a button or set the D-pad.
#[derive(Clone, Copy, Debug, PartialEq, Eq, Structural)]
pub enum TouchAction {
    Dpad(DpadDirection),
    Button(Button),
}

/// An axis-aligned rectangle of a touch surface, bounds included, and its action.
#[derive(Clone, Copy, Debug, PartialEq, Eq, Structural)]
pub struct TouchZone {
    /// Corner with the smaller coordinates.
    pub lower: Point,
    /// Corner with the larger coordinates.
    pub upper: Point,
    /// The emulated action to perform when the touch zone is touched.
    pub action: Option<TouchAction>,
}

pub open spec fn min_i32(a: i32, b: i32) -> i32 {
    if a <= b {
        a
    } else {
        b
    }
}

pub open spec fn max_i32(a: i32, b: i32) -> i32 {
    if a <= b {
        b
    } else {
        a
    }
}

/// The zone spanned by two opposite corners, in either order.
pub open spec fn zone_of(rect: (Point, Point), action: Option<TouchAction>) -> TouchZone {
    TouchZone {
        lower: Point(min_i32(rect.0.0, rect.1.0), min_i32(rect.0.1, rect.1.1)),
        upper: Point(max_i32(rect.0.0, rect.1.0), max_i32(rect.0.1, rect.1.1)),
        action,
    }
}

impl TouchZone {
    pub open spec fn wf(&self) -> bool {
        self.lower.0 <= self.upper.0 && self.lower.1 <= self.upper.1
    }

    /// Whether the zone holds a point, its border included.
    pub open spec fn holds(&self, p: Point) -> bool {
        self.lower.0 <= p.0 <= self.upper.0 && self.lower.1 <= p.1 <= self.upper.1
    }

    #[inline]
    pub fn new(rect: (Point, Point), action: Option<TouchAction>) -> (r: TouchZone)
        ensures
            r == zone_of(rect, action),
            r.wf(),
    {
        let (a, b) = rect;
        let lx = if a.0 <= b.0 { a.0 } else { b.0 };
        let ly = if a.1 <= b.1 { a.1 } else { b.1 };
        let ux = if a.0 <= b.0 { b.0 } else { a.0 };
        let uy = if a.1 <= b.1 { b.1 } else { a.1 };
        TouchZone { lower: Point(lx, ly), upper: Point(ux, uy), action }
    }

    pub fn contains_point(&self, p: &Point) -> (r: bool)
        ensures
            r == self.holds(*p),
    {
        self.lower.0 <= p.0 && p.0 <= self.upper.0 && self.lower.1 <= p.1 && p.1 <= self.upper.1
    }
}

/// The tree entry that stands for zone `i`.
pub open spec fn entry_of(z: TouchZone, i: int) -> ZoneEntry {
    (z.lower.0, z.lower.1, z.upper.0, z.upper.1, i as usize)
}

/// A spatial index of touch zones, answering which zone holds a point.
pub struct ZoneIndex {
    tree: ZoneTree,
    zones: Vec<TouchZone>,
}

impl ZoneIndex {
    pub closed spec fn view(&self) -> Seq<TouchZone> {
        self.zones@
    }

    pub closed spec fn wf(&self) -> bool {
        &&& self.zones@.len() <= usize::MAX
        &&& tree_entries(self.tree) == Seq::new(
            self.zones@.len(),
            |i: int| entry_of(self.zones@[i], i),
        )
        &&& forall|i: int| 0 <= i < self.zones@.len() ==> (#[trigger] self.zones@[i]).wf()
    }

    /// The zone that the index answers for a point. When several zones hold the point
    /// the choice among them is the tree's; it is the same on every call.
    pub closed spec fn located(&self, p: Point) -> Option<TouchZone> {
        match tree_pick(tree_entries(self.tree), p.0, p.1) {
            Some(i) => Some(self.zones@[i as int]),
            None => None,
        }
    }

    /// Builds the index over a set of zones.
    pub fn zones(zones: Vec<TouchZone>) -> (r: ZoneIndex)
        requires
            forall|i: int| 0 <= i < zones@.len() ==> (#[trigger] zones@[i]).wf(),
        ensures
            r.wf(),
            r@ == zones@,
    {
        let mut entries: Vec<ZoneEntry> = Vec::new();
        let mut i: usize = 0;
        while i < zones.len()
            invariant
                i <= zones@.len(),
                entries@ == Seq::new(i as nat, |k: int| entry_of(zones@[k], k)),
                forall|k: int| 0 <= k < zones@.len() ==> (#[trigger] zones@[k]).wf(),
            decreases zones@.len() - i,
        {
            let z = zones[i];
            entries.push((z.lower.0, z.lower.1, z.upper.0, z.upper.1, i));
            i = i + 1;
            assert(entries@ =~= Seq::new(i as nat, |k: int| entry_of(zones@[k], k)));
        }
        let tree = load_zone_tree(entries);
        ZoneIndex { tree, zones }
    }

    /// Finds a zone that holds the point, if any.
    pub fn locate_at_point(&self, p: &Point) -> (r: Option<TouchZone>)
        requires
            self.wf(),
        ensures
            r == self.located(*p),
            r matches Some(z) ==> exists|i: int|
                0 <= i < self@.len() && #[trigger] self@[i] == z && z.holds(*p),
            r is None ==> forall|i: int|
                0 <= i < self@.len() ==> !(#[trigger] self@[i]).holds(*p),
    {
        match locate_in_tree(&self.tree, p.0, p.1) {
            Some(i) => {
                proof {
                    let k = choose|k: int|
                        0 <= k < tree_entries(self.tree).len() && (#[trigger] tree_entries(
                            self.tree,
                        )[k]).4 == i && entry_contains(tree_entries(self.tree)[k], p.0, p.1);
                    assert(tree_entries(self.tree)[k] == entry_of(self.zones@[k], k));
                    assert(k == i);
                    assert(self@[k] == self.zones@[i as int]);
                    assert(self.zones@[i as int].holds(*p));
                }
                Some(self.zones[i])
            },
            None => {
                proof {
                    assert forall|i: int| 0 <= i < self@.len() implies !(
                    #[trigger] self@[i]).holds(*p) by {
                        assert(tree_entries(self.tree)[i] == entry_of(self.zones@[i], i));
                    }
                }
                None
            },
        }
    }
}

} // verus!
