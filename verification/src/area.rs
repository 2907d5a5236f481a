use vstd::prelude::*;

verus! {

/// Numeric identifier of a navigation area class.
///
/// Masks address the ids `0..=63`; larger ids are never contained in any mask.
#[derive(Clone, Copy, Debug, PartialEq, Eq, Structural, Hash, Default)]
pub struct NavmeshArea(pub u8);

/// A set of area classes stored as one bit per addressable area id.
#[derive(Clone, Copy, Debug, PartialEq, Eq, Structural, Hash)]
pub struct NavmeshAreaMask(pub u64);

/// The bit that stands for `area` in a mask, or no bit at all for an id past 63.
pub open spec fn area_bit(area: u8) -> u64 {
    if area < 64 {
        1u64 << area
    } else {
        0u64
    }
}

/// Whether the mask bits `mask` hold the area id `area`.
pub open spec fn bits_contain_area(mask: u64, area: u8) -> bool {
    mask & area_bit(area) != 0
}

impl NavmeshAreaMask {
    pub open spec fn intersects_spec(self, other: Self) -> bool {
        self.0 & other.0 != 0
    }

    pub open spec fn contains_area_spec(self, area: NavmeshArea) -> bool {
        bits_contain_area(self.0, area.0)
    }

    /// The mask that allows every area.
    pub fn all() -> (mask: Self)
        ensures
            mask.0 == u64::MAX,
    {
        NavmeshAreaMask(u64::MAX)
    }

    /// The mask that allows no area.
    pub fn empty() -> (mask: Self)
        ensures
            mask.0 == 0,
    {
        NavmeshAreaMask(0)
    }

    /// The mask holding exactly `area`; an id past 63 gives the empty mask.
    pub fn from_area(area: NavmeshArea) -> (mask: Self)
        ensures
            mask.0 == area_bit(area.0),
    {
        if area.0 < 64 {
            NavmeshAreaMask(1u64 << area.0)
        } else {
            NavmeshAreaMask::empty()
        }
    }

    /// Whether the two masks share at least one bit.
    pub fn intersects(self, other: Self) -> (shared: bool)
        ensures
            shared == self.intersects_spec(other),
    {
        (self.0 & other.0) != 0
    }

    /// Whether the mask holds `area`.
    pub fn contains_area(self, area: NavmeshArea) -> (contained: bool)
        ensures
            contained == self.contains_area_spec(area),
    {
        self.intersects(Self::from_area(area))
    }

    /// The mask holding the areas of both masks.
    pub fn union(self, other: Self) -> (mask: Self)
        ensures
            mask.0 == self.0 | other.0,
    {
        NavmeshAreaMask(self.0 | other.0)
    }
}

impl Default for NavmeshAreaMask {
    fn default() -> (mask: Self)
        ensures
            mask.0 == u64::MAX,
    {
        NavmeshAreaMask::all()
    }
}

/// A single-area mask holds its own area and no other one, when the id is addressable.
pub proof fn law_single_area_mask(a: NavmeshArea, b: NavmeshArea)
    ensures
        NavmeshAreaMask(area_bit(a.0)).contains_area_spec(b) <==> (a.0 < 64 && a == b),
{
    let x = a.0;
    let y = b.0;
    if x < 64 && y < 64 {
        assert(((1u64 << x) & (1u64 << y) != 0) <==> x == y) by (bit_vector)
            requires
                x < 64,
                y < 64,
        ;
    } else {
        let ba = area_bit(x);
        let bb = area_bit(y);
        assert(ba == 0 || bb == 0);
        assert(ba & 0u64 == 0 && 0u64 & bb == 0) by (bit_vector);
    }
}

/// An area id past 63 is held by no mask, and its own mask is the empty mask.
pub proof fn law_out_of_range_area(mask: NavmeshAreaMask, area: NavmeshArea)
    requires
        area.0 >= 64,
    ensures
        !mask.contains_area_spec(area),
        area_bit(area.0) == 0,
{
    let m = mask.0;
    assert(m & 0u64 == 0) by (bit_vector);
}

/// The mask of every area holds every addressable area; the empty mask holds none.
pub proof fn law_all_and_empty(area: NavmeshArea)
    ensures
        NavmeshAreaMask(u64::MAX).contains_area_spec(area) <==> area.0 < 64,
        !NavmeshAreaMask(0).contains_area_spec(area),
{
    let x = area.0;
    if x < 64 {
        assert(0xffff_ffff_ffff_ffffu64 & (1u64 << x) != 0) by (bit_vector)
            requires
                x < 64,
        ;
        assert(0u64 & (1u64 << x) == 0) by (bit_vector);
    } else {
        assert(0xffff_ffff_ffff_ffffu64 & 0u64 == 0) by (bit_vector);
        assert(0u64 & 0u64 == 0) by (bit_vector);
    }
}

/// A union holds exactly the areas held by either operand.
pub proof fn law_union_contains(m1: NavmeshAreaMask, m2: NavmeshAreaMask, area: NavmeshArea)
    ensures
        NavmeshAreaMask(m1.0 | m2.0).contains_area_spec(area) <==> (m1.contains_area_spec(area)
            || m2.contains_area_spec(area)),
{
    let x = m1.0;
    let y = m2.0;
    let b = area_bit(area.0);
    assert(((x | y) & b != 0) <==> (x & b != 0 || y & b != 0)) by (bit_vector);
}

/// Intersection of masks does not depend on the order of the operands.
pub proof fn law_intersects_symmetric(m1: NavmeshAreaMask, m2: NavmeshAreaMask)
    ensures
        m1.intersects_spec(m2) <==> m2.intersects_spec(m1),
{
    let x = m1.0;
    let y = m2.0;
    assert((x & y != 0) <==> (y & x != 0)) by (bit_vector);
}

/// A mask intersects a single-area mask exactly when it holds that area.
pub proof fn law_intersects_single_area(mask: NavmeshAreaMask, area: NavmeshArea)
    ensures
        mask.intersects_spec(NavmeshAreaMask(area_bit(area.0))) <==> mask.contains_area_spec(area),
{
}

/// A mask intersects a union exactly when it intersects one of its operands.
pub proof fn law_intersects_union(mask: NavmeshAreaMask, m1: NavmeshAreaMask, m2: NavmeshAreaMask)
    ensures
        mask.intersects_spec(NavmeshAreaMask(m1.0 | m2.0)) <==> (mask.intersects_spec(m1)
            || mask.intersects_spec(m2)),
{
    let x = mask.0;
    let y = m1.0;
    let z = m2.0;
    assert((x & (y | z) != 0) <==> (x & y != 0 || x & z != 0)) by (bit_vector);
}

/// The mask pair of a query filter: which polygons and which off-mesh links it may traverse.
#[derive(Clone, Copy, Debug, PartialEq, Eq, Structural)]
pub struct NavmeshFilterMasks {
    pub mask: NavmeshAreaMask,
    pub link_mask: NavmeshAreaMask,
}

impl NavmeshFilterMasks {
    pub open spec fn allows_area_spec(self, mask: NavmeshAreaMask) -> bool {
        self.mask.intersects_spec(mask)
    }

    pub open spec fn allows_link_spec(self, mask: NavmeshAreaMask) -> bool {
        self.link_mask.intersects_spec(mask)
    }

    /// Whether a polygon with area mask `mask` may be traversed.
    pub fn allows_area(&self, mask: NavmeshAreaMask) -> (allowed: bool)
        ensures
            allowed == self.allows_area_spec(mask),
    {
        self.mask.intersects(mask)
    }

    /// Whether an off-mesh link with mask `mask` may be traversed.
    pub fn allows_link(&self, mask: NavmeshAreaMask) -> (allowed: bool)
        ensures
            allowed == self.allows_link_spec(mask),
    {
        self.link_mask.intersects(mask)
    }
}

impl Default for NavmeshFilterMasks {
    fn default() -> (masks: Self)
        ensures
            masks.mask.0 == u64::MAX,
            masks.link_mask.0 == u64::MAX,
    {
        NavmeshFilterMasks { mask: NavmeshAreaMask::all(), link_mask: NavmeshAreaMask::all() }
    }
}

/// Index of the first entry of `areas` equal to `area`: the area-cost entry that decides the
/// traversal cost of that area. `None` when no entry names it.
pub fn find_area_cost(areas: &Vec<NavmeshArea>, area: NavmeshArea) -> (found: Option<usize>)
    ensures
        match found {
            Some(i) => i < areas@.len() && areas@[i as int] == area && forall|j: int|
                0 <= j < i ==> areas@[j] != area,
            None => forall|j: int| 0 <= j < areas@.len() ==> areas@[j] != area,
        },
{
    let mut i: usize = 0;
    while i < areas.len()
        invariant
            i <= areas@.len(),
            forall|j: int| 0 <= j < i ==> areas@[j] != area,
        decreases areas@.len() - i,
    {
        if areas[i].0 == area.0 {
            return Some(i);
        }
        i += 1;
    }
    None
}

} // verus!
