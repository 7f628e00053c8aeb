//! Monitors as reported by the compositor: oriented logical extents, the
//! selectable subset, the layout bounding box, and the fingerprint of
//! everything that affects pointer targeting.
use vstd::prelude::*;

verus! {

/// One output from `hyprctl -j monitors`.  The scale factor enters the logic
/// through `scale` (its decimal rendering) and through the extents divided
/// by it and rounded (`scaled_width`, `scaled_height`, before any rotation).
#[derive(Debug, Clone)]
pub struct Monitor {
    pub name: String,
    pub description: String,
    pub x: i32,
    pub y: i32,
    pub width: u32,
    pub height: u32,
    pub scale: String,
    pub scaled_width: u32,
    pub scaled_height: u32,
    pub transform: u8,
    pub disabled: bool,
    pub id: i64,
}

/// Transforms 1, 3, 5 and 7 are the 90/270-degree variants.
pub open spec fn swaps_axes(transform: u8) -> bool {
    transform == 1 || transform == 3 || transform == 5 || transform == 7
}

/// Transformed logical extents in Hyprland layout coordinates.
pub open spec fn logical_extents(m: Monitor) -> (u32, u32) {
    if swaps_axes(m.transform) {
        (m.scaled_height, m.scaled_width)
    } else {
        (m.scaled_width, m.scaled_height)
    }
}

impl Monitor {
    /// Transformed logical extents in Hyprland layout coordinates.
    /// Transforms 1,3,5,7 are the 90/270-degree variants and swap axes.
    pub fn logical_size(&self) -> (r: (u32, u32))
        ensures
            r == logical_extents(*self),
    {
        match self.transform {
            1 | 3 | 5 | 7 => (self.scaled_height, self.scaled_width),
            _ => (self.scaled_width, self.scaled_height),
        }
    }

    fn id_or_name_matches(&self, want: i64) -> (b: bool)
        ensures
            b == (self.id == want),
    {
        self.id == want
    }
}

pub open spec fn is_first_with_id(ms: Seq<Monitor>, want: i64, i: int) -> bool {
    &&& 0 <= i < ms.len()
    &&& ms[i].id == want
    &&& forall|j: int| 0 <= j < i ==> ms[j].id != want
}

/// Name of the first monitor whose compositor id is `want`.
pub fn monitor_name_for_id(monitors: &Vec<Monitor>, want: i64) -> (r: Option<String>)
    ensures
        r is None <==> !exists|i: int| 0 <= i < monitors@.len() && monitors@[i].id == want,
        r matches Some(n) ==> exists|i: int|
            is_first_with_id(monitors@, want, i) && n@ == monitors@[i].name@,
{
    let mut i: usize = 0;
    while i < monitors.len()
        invariant
            0 <= i <= monitors@.len(),
            forall|j: int| 0 <= j < i ==> monitors@[j].id != want,
        decreases monitors@.len() - i,
    {
        if monitors[i].id_or_name_matches(want) {
            assert(is_first_with_id(monitors@, want, i as int));
            return Some(monitors[i].name.clone());
        }
        i = i + 1;
    }
    None
}

pub open spec fn is_enabled(m: Monitor) -> bool {
    !m.disabled
}

/// hyprctl -j monitors reports disabled outputs too; keep only selectable ones.
pub fn selectable(monitors: Vec<Monitor>) -> (r: Vec<Monitor>)
    ensures
        r@ == monitors@.filter(|m: Monitor| is_enabled(m)),
{
    let ghost all = monitors@;
    let n = monitors.len();
    let mut rest = monitors;
    let mut kept: Vec<Monitor> = Vec::new();
    let mut i: usize = 0;
    while rest.len() > 0
        invariant
            0 <= i <= all.len(),
            rest@ == all.skip(i as int),
            i + rest@.len() == all.len(),
            all.len() == n,
            kept@ == all.take(i as int).filter(|m: Monitor| is_enabled(m)),
        decreases rest@.len(),
    {
        let m = rest.remove(0);
        proof {
            assert(m == all[i as int]);
            assert(all.take(i + 1) =~= all.take(i as int).push(m));
            all.take(i as int).lemma_filter_push(m, |m: Monitor| is_enabled(m));
        }
        if !m.disabled {
            kept.push(m);
        }
        i = i + 1;
        assert(rest@ =~= all.skip(i as int));
    }
    assert(all.take(i as int) =~= all);
    kept
}

// ---------------------------------------------------------------------------
// Layout bounding box.
// ---------------------------------------------------------------------------

/// Bounding rectangle of the complete logical monitor layout — the absolute
/// frame an output-unmapped virtual pointer maps onto (Hyprland 0.56.2
/// `warpAbsolute`: normalized position inside this box).
#[derive(Debug, PartialEq, Eq, Structural)]
pub struct LayoutBox {
    pub min_x: i32,
    pub min_y: i32,
    pub x_extent: u32,
    pub y_extent: u32,
}

/// Right edge of a monitor, as the layout computes it.
pub open spec fn right_edge(m: Monitor) -> int {
    m.x + (logical_extents(m).0 as i32)
}

/// Bottom edge of a monitor, as the layout computes it.
pub open spec fn bottom_edge(m: Monitor) -> int {
    m.y + (logical_extents(m).1 as i32)
}

/// Smallest x of the enabled monitors (`i32::MAX` when there are none).
pub open spec fn layout_min_x(ms: Seq<Monitor>) -> int
    decreases ms.len(),
{
    if ms.len() == 0 {
        i32::MAX as int
    } else {
        let r = layout_min_x(ms.drop_last());
        let m = ms.last();
        if m.disabled || r <= m.x { r } else { m.x as int }
    }
}

/// Smallest y of the enabled monitors (`i32::MAX` when there are none).
pub open spec fn layout_min_y(ms: Seq<Monitor>) -> int
    decreases ms.len(),
{
    if ms.len() == 0 {
        i32::MAX as int
    } else {
        let r = layout_min_y(ms.drop_last());
        let m = ms.last();
        if m.disabled || r <= m.y { r } else { m.y as int }
    }
}

/// Largest right edge of the enabled monitors (`i32::MIN` when none).
pub open spec fn layout_max_x(ms: Seq<Monitor>) -> int
    decreases ms.len(),
{
    if ms.len() == 0 {
        i32::MIN as int
    } else {
        let r = layout_max_x(ms.drop_last());
        let m = ms.last();
        if m.disabled || r >= right_edge(m) { r } else { right_edge(m) }
    }
}

/// Largest bottom edge of the enabled monitors (`i32::MIN` when none).
pub open spec fn layout_max_y(ms: Seq<Monitor>) -> int
    decreases ms.len(),
{
    if ms.len() == 0 {
        i32::MIN as int
    } else {
        let r = layout_max_y(ms.drop_last());
        let m = ms.last();
        if m.disabled || r >= bottom_edge(m) { r } else { bottom_edge(m) }
    }
}

/// The edges of every enabled monitor, and the box's extents, fit in `i32`.
pub open spec fn layout_fits(ms: Seq<Monitor>) -> bool {
    &&& forall|i: int|
        0 <= i < ms.len() && !ms[i].disabled ==> i32::MIN <= #[trigger] right_edge(ms[i]) <= i32::MAX
            && i32::MIN <= bottom_edge(ms[i]) <= i32::MAX
    &&& (layout_max_x(ms) > layout_min_x(ms) && layout_max_y(ms) > layout_min_y(ms)) ==> (
    layout_max_x(ms) - layout_min_x(ms) <= i32::MAX && layout_max_y(ms) - layout_min_y(ms)
        <= i32::MAX)
}

/// The bounding box of the enabled monitors, or None when it is empty.
pub open spec fn layout_of(ms: Seq<Monitor>) -> Option<LayoutBox> {
    if layout_max_x(ms) > layout_min_x(ms) && layout_max_y(ms) > layout_min_y(ms) {
        Some(
            LayoutBox {
                min_x: layout_min_x(ms) as i32,
                min_y: layout_min_y(ms) as i32,
                x_extent: (layout_max_x(ms) - layout_min_x(ms)) as u32,
                y_extent: (layout_max_y(ms) - layout_min_y(ms)) as u32,
            },
        )
    } else {
        None
    }
}

pub fn layout_box(monitors: &[Monitor]) -> (r: Option<LayoutBox>)
    requires
        layout_fits(monitors@),
    ensures
        r == layout_of(monitors@),
{
    let mut min_x: i32 = i32::MAX;
    let mut min_y: i32 = i32::MAX;
    let mut max_x: i32 = i32::MIN;
    let mut max_y: i32 = i32::MIN;
    let mut i: usize = 0;
    while i < monitors.len()
        invariant
            0 <= i <= monitors@.len(),
            layout_fits(monitors@),
            min_x == layout_min_x(monitors@.take(i as int)),
            min_y == layout_min_y(monitors@.take(i as int)),
            max_x == layout_max_x(monitors@.take(i as int)),
            max_y == layout_max_y(monitors@.take(i as int)),
        decreases monitors@.len() - i,
    {
        let m = &monitors[i];
        assert(monitors@.take(i + 1).drop_last() =~= monitors@.take(i as int));
        assert(monitors@.take(i + 1).last() == monitors@[i as int]);
        if !m.disabled {
            let (w, h) = m.logical_size();
            assert(right_edge(monitors@[i as int]) == m.x + (w as i32));
            let right = m.x + w as i32;
            let bottom = m.y + h as i32;
            if m.x < min_x {
                min_x = m.x;
            }
            if m.y < min_y {
                min_y = m.y;
            }
            if right > max_x {
                max_x = right;
            }
            if bottom > max_y {
                max_y = bottom;
            }
        }
        i = i + 1;
    }
    assert(monitors@.take(monitors@.len() as int) =~= monitors@);
    if max_x > min_x && max_y > min_y {
        Some(
            LayoutBox {
                min_x,
                min_y,
                x_extent: (max_x - min_x) as u32,
                y_extent: (max_y - min_y) as u32,
            },
        )
    } else {
        None
    }
}

} // verus!

verus! {

pub open spec fn is_first_named(ms: Seq<Monitor>, name: Seq<char>, i: int) -> bool {
    &&& 0 <= i < ms.len()
    &&& ms[i].name@ == name
    &&& forall|j: int| 0 <= j < i ==> ms[j].name@ != name
}

/// Position of the first monitor called `name`.
pub fn monitor_named(monitors: &Vec<Monitor>, name: &str) -> (r: Option<usize>)
    ensures
        r is None <==> forall|i: int| 0 <= i < monitors@.len() ==> monitors@[i].name@ != name@,
        r matches Some(i) ==> is_first_named(monitors@, name@, i as int),
{
    let mut i: usize = 0;
    while i < monitors.len()
        invariant
            0 <= i <= monitors@.len(),
            forall|j: int| 0 <= j < i ==> monitors@[j].name@ != name@,
        decreases monitors@.len() - i,
    {
        if crate::text::str_eq(monitors[i].name.as_str(), name) {
            return Some(i);
        }
        i = i + 1;
    }
    None
}

} // verus!

verus! {

proof fn lemma_bounds_without_enabled(ms: Seq<Monitor>)
    requires
        forall|i: int| 0 <= i < ms.len() ==> #[trigger] ms[i].disabled,
    ensures
        layout_min_x(ms) == i32::MAX,
        layout_min_y(ms) == i32::MAX,
        layout_max_x(ms) == i32::MIN,
        layout_max_y(ms) == i32::MIN,
    decreases ms.len(),
{
    if ms.len() > 0 {
        let rest = ms.drop_last();
        assert forall|i: int| 0 <= i < rest.len() implies #[trigger] rest[i].disabled by {
            assert(ms[i].disabled);
        }
        lemma_bounds_without_enabled(rest);
        assert(ms[ms.len() - 1].disabled);
    }
}

/// With no enabled monitor there is no layout box.
pub proof fn lemma_layout_empty_without_enabled(ms: Seq<Monitor>)
    requires
        forall|i: int| 0 <= i < ms.len() ==> #[trigger] ms[i].disabled,
    ensures
        layout_of(ms) is None,
{
    lemma_bounds_without_enabled(ms);
}

/// Each enabled monitor lies within the running bounds.
proof fn lemma_bounds_contain(ms: Seq<Monitor>, i: int)
    requires
        0 <= i < ms.len(),
        !ms[i].disabled,
    ensures
        layout_min_x(ms) <= ms[i].x,
        layout_min_y(ms) <= ms[i].y,
        right_edge(ms[i]) <= layout_max_x(ms),
        bottom_edge(ms[i]) <= layout_max_y(ms),
    decreases ms.len(),
{
    let rest = ms.drop_last();
    if i < ms.len() - 1 {
        assert(rest[i] == ms[i]);
        lemma_bounds_contain(rest, i);
    }
}

/// The running minima are coordinates of monitors (or `i32::MAX`).
proof fn lemma_min_in_range(ms: Seq<Monitor>)
    ensures
        i32::MIN <= layout_min_x(ms) <= i32::MAX,
        i32::MIN <= layout_min_y(ms) <= i32::MAX,
    decreases ms.len(),
{
    if ms.len() > 0 {
        lemma_min_in_range(ms.drop_last());
    }
}

/// The layout box is the bounding rectangle of the whole layout: every
/// enabled monitor's logical rectangle lies inside it, and one enabled
/// monitor of positive size is enough for there to be a box.
pub proof fn lemma_layout_contains_enabled(ms: Seq<Monitor>, i: int)
    requires
        layout_fits(ms),
        0 <= i < ms.len(),
        !ms[i].disabled,
    ensures
        (0 < logical_extents(ms[i]).0 <= i32::MAX && 0 < logical_extents(ms[i]).1 <= i32::MAX)
            ==> layout_of(ms) is Some,
        layout_of(ms) matches Some(b) ==> {
            &&& b.min_x <= ms[i].x
            &&& right_edge(ms[i]) <= b.min_x + b.x_extent
            &&& b.min_y <= ms[i].y
            &&& bottom_edge(ms[i]) <= b.min_y + b.y_extent
        },
{
    lemma_bounds_contain(ms, i);
    lemma_min_in_range(ms);
}

/// Some monitor of the list is enabled.
pub open spec fn has_enabled(ms: Seq<Monitor>) -> bool {
    exists|i: int| 0 <= i < ms.len() && !ms[i].disabled
}

/// With an enabled monitor, each running bound is the edge of one.
proof fn lemma_bounds_attained(ms: Seq<Monitor>) -> (w: (int, int, int, int))
    requires
        has_enabled(ms),
        forall|i: int|
            0 <= i < ms.len() && !ms[i].disabled ==> i32::MIN <= #[trigger] right_edge(ms[i])
                && i32::MIN <= bottom_edge(ms[i]),
    ensures
        0 <= w.0 < ms.len() && !ms[w.0].disabled && ms[w.0].x == layout_min_x(ms),
        0 <= w.1 < ms.len() && !ms[w.1].disabled && ms[w.1].y == layout_min_y(ms),
        0 <= w.2 < ms.len() && !ms[w.2].disabled && right_edge(ms[w.2]) == layout_max_x(ms),
        0 <= w.3 < ms.len() && !ms[w.3].disabled && bottom_edge(ms[w.3]) == layout_max_y(ms),
    decreases ms.len(),
{
    let n = ms.len() - 1;
    let rest = ms.drop_last();
    let m = ms.last();
    assert(ms[n] == m);
    assert forall|i: int|
        0 <= i < rest.len() && !rest[i].disabled implies i32::MIN <= #[trigger] right_edge(rest[i])
            && i32::MIN <= bottom_edge(rest[i]) by {
        assert(rest[i] == ms[i]);
        assert(i32::MIN <= right_edge(ms[i]));
    }
    if has_enabled(rest) {
        let v = lemma_bounds_attained(rest);
        assert(ms[v.0] == rest[v.0]);
        assert(ms[v.1] == rest[v.1]);
        assert(ms[v.2] == rest[v.2]);
        assert(ms[v.3] == rest[v.3]);
        if m.disabled {
            v
        } else {
            (
                if layout_min_x(rest) <= m.x { v.0 } else { n },
                if layout_min_y(rest) <= m.y { v.1 } else { n },
                if layout_max_x(rest) >= right_edge(m) { v.2 } else { n },
                if layout_max_y(rest) >= bottom_edge(m) { v.3 } else { n },
            )
        }
    } else {
        lemma_bounds_without_enabled(rest);
        assert(!m.disabled) by {
            let k = choose|k: int| 0 <= k < ms.len() && !ms[k].disabled;
            if k < n {
                assert(rest[k] == ms[k]);
            }
        }
        assert(i32::MIN <= right_edge(ms[n]));
        (n, n, n, n)
    }
}

/// The layout box is tight: when there is one, its left and top edges are
/// the left and top edges of enabled monitors, and its right and bottom
/// edges are the right and bottom edges of enabled monitors.
pub proof fn lemma_layout_box_tight(ms: Seq<Monitor>)
    requires
        layout_fits(ms),
    ensures
        layout_of(ms) matches Some(b) ==> {
            &&& exists|i: int| 0 <= i < ms.len() && !ms[i].disabled && ms[i].x == b.min_x
            &&& exists|i: int| 0 <= i < ms.len() && !ms[i].disabled && ms[i].y == b.min_y
            &&& exists|i: int|
                0 <= i < ms.len() && !ms[i].disabled && right_edge(ms[i]) == b.min_x + b.x_extent
            &&& exists|i: int|
                0 <= i < ms.len() && !ms[i].disabled && bottom_edge(ms[i]) == b.min_y + b.y_extent
        },
{
    lemma_min_in_range(ms);
    if layout_of(ms) is Some {
        if !has_enabled(ms) {
            assert forall|i: int| 0 <= i < ms.len() implies #[trigger] ms[i].disabled by {}
            lemma_bounds_without_enabled(ms);
        } else {
            assert forall|i: int|
                0 <= i < ms.len() && !ms[i].disabled implies i32::MIN <= #[trigger] right_edge(ms[i])
                    && i32::MIN <= bottom_edge(ms[i]) by {}
            let w = lemma_bounds_attained(ms);
            let b = layout_of(ms).unwrap();
            assert(ms[w.0].x == b.min_x);
            assert(ms[w.1].y == b.min_y);
            assert(right_edge(ms[w.2]) == b.min_x + b.x_extent);
            assert(bottom_edge(ms[w.3]) == b.min_y + b.y_extent);
        }
    }
}

} // verus!
