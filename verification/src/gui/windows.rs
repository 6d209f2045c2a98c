//! What the window needs on Windows beyond what it needs elsewhere.
use vstd::prelude::*;

verus! {

/// The style class for a density of pixels.
pub open spec fn class_for(dpi: u16) -> Seq<char> {
    if dpi <= 108 {
        "dpi100"@
    } else if dpi <= 132 {
        "dpi125"@
    } else if dpi <= 156 {
        "dpi150"@
    } else if dpi <= 180 {
        "dpi175"@
    } else {
        "dpi200"@
    }
}

/// The density of pixels of the screen that the window is on.
#[derive(Clone, Copy, Debug, PartialEq, Eq, Structural)]
pub struct Dpi(pub u16);

impl Dpi {
    /// The style class for it.
    pub fn dpi_class(self) -> (r: &'static str)
        ensures
            r@ == class_for(self.0),
    {
        if self.0 <= 108 {
            "dpi100"
        } else if self.0 <= 132 {
            "dpi125"
        } else if self.0 <= 156 {
            "dpi150"
        } else if self.0 <= 180 {
            "dpi175"
        } else {
            "dpi200"
        }
    }

    /// The window has another density of pixels now. Gives the style class to use if it changed.
    pub fn set_dpi(&mut self, dpi: u16) -> (r: Option<&'static str>)
        ensures
            final(self).0 == dpi,
            dpi == old(self).0 ==> r is None,
            dpi != old(self).0 ==> (r matches Some(c) && c@ == class_for(dpi)),
    {
        if dpi == self.0 {
            return None;
        }
        self.0 = dpi;
        Some(self.dpi_class())
    }
}

/// A rectangle on the screen.
#[derive(Clone, Copy, Debug, PartialEq, Eq, Structural)]
pub struct ScreenRect {
    pub left: i32,
    pub top: i32,
    pub right: i32,
    pub bottom: i32,
}

impl ScreenRect {
    /// Whether its size can be told.
    pub open spec fn wf(self) -> bool {
        &&& i32::MIN <= self.right - self.left <= i32::MAX
        &&& i32::MIN <= self.bottom - self.top <= i32::MAX
    }

    pub open spec fn spec_width(self) -> int {
        self.right - self.left
    }

    pub open spec fn spec_height(self) -> int {
        self.bottom - self.top
    }

    /// The width.
    pub fn width(self) -> (r: i32)
        requires
            self.wf(),
        ensures
            r == self.spec_width(),
    {
        self.right - self.left
    }

    /// The height.
    pub fn height(self) -> (r: i32)
        requires
            self.wf(),
        ensures
            r == self.spec_height(),
    {
        self.bottom - self.top
    }
}

/// What is to be mended after the window was moved while it fills the screen.
#[derive(Clone, Copy, Debug, PartialEq, Eq, Structural)]
pub enum Correction {
    Nothing,
    /// It does not fill the screen yet, and is to.
    Fullscreen,
    /// Its style, if it is that of a popup, and its place, if it does not cover the monitor.
    Mend { style: bool, move_to: Option<ScreenRect> },
}

/// What is to be mended after the window was moved, by whether it should fill the screen, whether
/// it does, whether it has the style of a popup, and where it and the monitor are.
pub fn position_changed(
    fullscreen: bool,
    is_fullscreen: bool,
    popup: bool,
    window: ScreenRect,
    monitor: ScreenRect,
) -> (r: Correction)
    requires
        window.wf(),
        monitor.wf(),
    ensures
        r == if !fullscreen {
            Correction::Nothing
        } else if !is_fullscreen {
            Correction::Fullscreen
        } else {
            Correction::Mend {
                style: popup,
                move_to: if window.spec_width() < monitor.spec_width() || window.spec_height()
                    < monitor.spec_height() {
                    Some(monitor)
                } else {
                    None
                },
            }
        },
{
    if !fullscreen {
        return Correction::Nothing;
    }
    if !is_fullscreen {
        return Correction::Fullscreen;
    }
    let small = window.width() < monitor.width() || window.height() < monitor.height();
    Correction::Mend {
        style: popup,
        move_to: if small {
            Some(monitor)
        } else {
            None
        },
    }
}

/// The style is that of the scale nearest to the density, a density of 96 being that of no scaling,
/// in steps of a quarter from one to two.
pub proof fn law_style_of_nearest_scale(dpi: u16, quarters: int)
    requires
        4 <= quarters <= 8,
        quarters > 4 ==> 24 * quarters - 12 < dpi,
        quarters < 8 ==> dpi <= 24 * quarters + 12,
    ensures
        class_for(dpi) == if quarters == 4 {
            "dpi100"@
        } else if quarters == 5 {
            "dpi125"@
        } else if quarters == 6 {
            "dpi150"@
        } else if quarters == 7 {
            "dpi175"@
        } else {
            "dpi200"@
        },
{
}

/// A rectangle is as wide and as high as its edges are apart.
pub proof fn law_size_of_rectangles(r: ScreenRect)
    ensures
        r.left + r.spec_width() == r.right,
        r.top + r.spec_height() == r.bottom,
{
}

} // verus!
