//! How pages are shown.
use vstd::prelude::*;

verus! {

/// How a page is fitted to the space that it is shown in.
#[derive(Clone, Copy, Debug, PartialEq, Eq, Structural)]
pub enum Fit {
    Container,
    Height,
    Width,
    FullSize,
}

impl Fit {
    /// The word for it.
    pub open spec fn spec_word(self) -> Seq<char> {
        match self {
            Fit::Container => "container"@,
            Fit::Height => "height"@,
            Fit::Width => "width"@,
            Fit::FullSize => "fullsize"@,
        }
    }

    /// The word for it.
    pub fn word(self) -> (r: &'static str)
        ensures
            r@ == self.spec_word(),
    {
        match self {
            Fit::Container => "container",
            Fit::Height => "height",
            Fit::Width => "width",
            Fit::FullSize => "fullsize",
        }
    }
}

impl Default for Fit {
    fn default() -> (r: Self)
        ensures
            r == Fit::Container,
    {
        Fit::Container
    }
}

/// How many pages are shown, and how they follow one another.
#[derive(Clone, Copy, Debug, PartialEq, Eq, Structural)]
pub enum DisplayMode {
    Single,
    VerticalStrip,
    HorizontalStrip,
    DualPage,
    DualPageReversed,
}

impl Default for DisplayMode {
    fn default() -> (r: Self)
        ensures
            r == DisplayMode::Single,
    {
        DisplayMode::Single
    }
}

impl DisplayMode {
    /// The word for it.
    pub open spec fn spec_word(self) -> Seq<char> {
        match self {
            DisplayMode::Single => "single"@,
            DisplayMode::VerticalStrip => "verticalstrip"@,
            DisplayMode::HorizontalStrip => "horizontalstrip"@,
            DisplayMode::DualPage => "dualpage"@,
            DisplayMode::DualPageReversed => "dualpagereversed"@,
        }
    }

    /// The word for it.
    pub fn word(self) -> (r: &'static str)
        ensures
            r@ == self.spec_word(),
    {
        match self {
            DisplayMode::Single => "single",
            DisplayMode::VerticalStrip => "verticalstrip",
            DisplayMode::HorizontalStrip => "horizontalstrip",
            DisplayMode::DualPage => "dualpage",
            DisplayMode::DualPageReversed => "dualpagereversed",
        }
    }

    pub open spec fn is_dual_page(self) -> bool {
        self is DualPage || self is DualPageReversed
    }

    pub open spec fn is_strip(self) -> bool {
        self is VerticalStrip || self is HorizontalStrip
    }

    /// Whether scrolling past the edge in the vertical direction turns the page.
    pub fn vertical_pagination(self) -> (r: bool)
        ensures
            r == !(self is HorizontalStrip),
    {
        match self {
            DisplayMode::Single
            | DisplayMode::VerticalStrip
            | DisplayMode::DualPage
            | DisplayMode::DualPageReversed => true,
            DisplayMode::HorizontalStrip => false,
        }
    }

    /// Whether each page has half of the width to itself.
    pub fn half_width_pages(self) -> (r: bool)
        ensures
            r == self.is_dual_page(),
    {
        self.dual_page()
    }

    pub fn dual_page(self) -> (r: bool)
        ensures
            r == self.is_dual_page(),
    {
        match self {
            DisplayMode::DualPage | DisplayMode::DualPageReversed => true,
            DisplayMode::Single | DisplayMode::VerticalStrip | DisplayMode::HorizontalStrip => false,
        }
    }

    pub fn strip(self) -> (r: bool)
        ensures
            r == self.is_strip(),
    {
        match self {
            DisplayMode::Single | DisplayMode::DualPage | DisplayMode::DualPageReversed => false,
            DisplayMode::VerticalStrip | DisplayMode::HorizontalStrip => true,
        }
    }
}

/// The modes that the user can switch.
#[derive(Clone, Copy, Debug, PartialEq, Eq, Structural)]
pub struct Modes {
    pub manga: bool,
    pub upscaling: bool,
    pub fit: Fit,
    pub display: DisplayMode,
}

impl Default for Modes {
    fn default() -> (r: Self)
        ensures
            r == (Modes {
                manga: false,
                upscaling: false,
                fit: Fit::Container,
                display: DisplayMode::Single,
            }),
    {
        Modes {
            manga: false,
            upscaling: false,
            fit: Fit::Container,
            display: DisplayMode::Single,
        }
    }
}

impl Modes {
    /// The letters of the modes that are on.
    pub open spec fn letters(self) -> Seq<char> {
        (if self.upscaling {
            seq!['U']
        } else {
            seq![]
        }) + (if self.manga {
            seq!['M']
        } else {
            seq![]
        })
    }

    /// The indicator of the modes that are on.
    pub fn gui_str(self) -> (out: String)
        ensures
            out@ == self.letters(),
    {
        let mut out = String::new();
        if self.upscaling {
            out.push('U');
        }
        if self.manga {
            out.push('M');
        }
        assert(out@ =~= self.letters());
        out
    }
}

/// The words for how pages are fitted.
pub proof fn law_words_for_fits()
    ensures
        Fit::Container.spec_word() == "container"@,
        Fit::Height.spec_word() == "height"@,
        Fit::Width.spec_word() == "width"@,
        Fit::FullSize.spec_word() == "fullsize"@,
{
}

/// The words for how pages are displayed.
pub proof fn law_words_for_displays()
    ensures
        DisplayMode::Single.spec_word() == "single"@,
        DisplayMode::VerticalStrip.spec_word() == "verticalstrip"@,
        DisplayMode::HorizontalStrip.spec_word() == "horizontalstrip"@,
        DisplayMode::DualPage.spec_word() == "dualpage"@,
        DisplayMode::DualPageReversed.spec_word() == "dualpagereversed"@,
{
}

/// Pages are displayed alone, in pairs or in strips, never in two of these ways.
pub proof fn law_ways_to_display(d: DisplayMode)
    ensures
        d == DisplayMode::Single <==> !d.is_dual_page() && !d.is_strip(),
        !(d.is_dual_page() && d.is_strip()),
        d == DisplayMode::DualPage || d == DisplayMode::DualPageReversed ==> d.is_dual_page(),
        d == DisplayMode::VerticalStrip || d == DisplayMode::HorizontalStrip ==> d.is_strip(),
{
}

/// Each mode that is on has its letter, and those that are off have none.
pub proof fn law_letters_of_modes(m: Modes)
    ensures
        m.letters().contains('U') == m.upscaling,
        m.letters().contains('M') == m.manga,
        m.upscaling && m.manga ==> m.letters() == seq!['U', 'M'],
        !m.upscaling && !m.manga ==> m.letters().len() == 0,
        m.upscaling != m.manga ==> m.letters().len() == 1,
{
    let l = m.letters();
    if m.upscaling {
        assert(l[0] == 'U');
    }
    if m.manga {
        assert(l.last() == 'M');
    }
    if m.upscaling && m.manga {
        assert(l =~= seq!['U', 'M']);
    }
}

} // verus!
