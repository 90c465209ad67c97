//! Split view: how many panes a layout shows and which pane is active.

use vstd::prelude::*;
use vstd::utf8::encode_utf8;
use crate::encoding::lemma_utf8_injective;

verus! {

/// The arrangement of panes in a window.
#[derive(Debug, Clone, Copy, PartialEq, Eq, Structural)]
pub enum SplitLayout {
    Single,
    Horizontal,
    Vertical,
    Quad,
}

/// Number of panes a layout shows.
pub open spec fn pane_count(layout: SplitLayout) -> int {
    match layout {
        SplitLayout::Single => 1,
        SplitLayout::Horizontal => 2,
        SplitLayout::Vertical => 2,
        SplitLayout::Quad => 4,
    }
}

/// The stored name of a layout.
pub open spec fn layout_name(layout: SplitLayout) -> Seq<char> {
    match layout {
        SplitLayout::Single => "single"@,
        SplitLayout::Horizontal => "horizontal"@,
        SplitLayout::Vertical => "vertical"@,
        SplitLayout::Quad => "quad"@,
    }
}

/// The layout a stored name denotes; an unknown name denotes `Single`.
pub open spec fn layout_named(name: Seq<char>) -> SplitLayout {
    if name == "horizontal"@ {
        SplitLayout::Horizontal
    } else if name == "vertical"@ {
        SplitLayout::Vertical
    } else if name == "quad"@ {
        SplitLayout::Quad
    } else {
        SplitLayout::Single
    }
}

/// The pane that becomes active when cycling from `active`: forwards when
/// `direction` is positive, backwards otherwise, wrapping around the panes
/// of the layout.
pub open spec fn cycled_pane(layout: SplitLayout, active: int, direction: int) -> int {
    if direction > 0 {
        if active >= pane_count(layout) {
            1
        } else {
            active + 1
        }
    } else {
        if active <= 1 {
            pane_count(layout)
        } else {
            active - 1
        }
    }
}

/// Whether two texts are equal, compared byte by byte.
fn same_text(a: &str, b: &str) -> (r: bool)
    ensures
        r == (a@ == b@),
{
    let x = a.as_bytes();
    let y = b.as_bytes();
    proof {
        if a@ == b@ {
            assert(x@ == y@);
        }
    }
    if x.len() != y.len() {
        proof {
            if a@ == b@ {
                assert(false);
            }
        }
        return false;
    }
    let mut i: usize = 0;
    while i < x.len()
        invariant
            x@.len() == y@.len(),
            x@ == encode_utf8(a@),
            y@ == encode_utf8(b@),
            0 <= i <= x@.len(),
            forall|k: int| 0 <= k < i ==> x@[k] == y@[k],
        decreases x@.len() - i,
    {
        if x[i] != y[i] {
            return false;
        }
        i = i + 1;
    }
    proof {
        assert(x@ =~= y@);
        lemma_utf8_injective(a@, b@);
    }
    true
}

impl SplitLayout {
    /// The layout a stored name denotes; an unknown name gives `Single`.
    pub fn from_name(name: &str) -> (r: SplitLayout)
        ensures
            r == layout_named(name@),
    {
        if same_text(name, "horizontal") {
            SplitLayout::Horizontal
        } else if same_text(name, "vertical") {
            SplitLayout::Vertical
        } else if same_text(name, "quad") {
            SplitLayout::Quad
        } else {
            SplitLayout::Single
        }
    }

    /// The stored name of the layout.
    pub fn as_str(&self) -> (r: &'static str)
        ensures
            r@ == layout_name(*self),
    {
        match self {
            SplitLayout::Single => "single",
            SplitLayout::Horizontal => "horizontal",
            SplitLayout::Vertical => "vertical",
            SplitLayout::Quad => "quad",
        }
    }

    /// Number of panes the layout shows.
    pub fn max_panes(&self) -> (r: i32)
        ensures
            r as int == pane_count(*self),
    {
        match self {
            SplitLayout::Single => 1,
            SplitLayout::Horizontal | SplitLayout::Vertical => 2,
            SplitLayout::Quad => 4,
        }
    }

    /// Whether `pane` is one of the layout's panes, numbered from 1.
    pub fn has_pane(&self, pane: i32) -> (r: bool)
        ensures
            r == (1 <= pane <= pane_count(*self)),
    {
        1 <= pane && pane <= self.max_panes()
    }

    /// The pane that becomes active when cycling from `active` in `direction`.
    pub fn cycle_pane(&self, active: i32, direction: i32) -> (r: i32)
        ensures
            r as int == cycled_pane(*self, active as int, direction as int),
            1 <= active <= pane_count(*self) ==> 1 <= r <= pane_count(*self),
    {
        let max = self.max_panes();
        if direction > 0 {
            if active >= max {
                1
            } else {
                active + 1
            }
        } else {
            if active <= 1 {
                max
            } else {
                active - 1
            }
        }
    }
}

/// Split view settings of the profiles in one database.
pub struct SplitViewManager {
    db_path: String,
}

impl SplitViewManager {
    /// The database the settings live in.
    pub closed spec fn path(&self) -> Seq<char> {
        self.db_path@
    }

    /// A manager for the settings in `db_path`.
    pub fn new(db_path: String) -> (r: SplitViewManager)
        ensures
            r.path() == db_path@,
    {
        SplitViewManager { db_path }
    }
}

} // verus!
