//! The context menu.
use vstd::prelude::*;

use crate::com::mode::{DisplayMode, Fit, Modes};
use crate::com::res::lemma_position_skips;
use crate::com::toggle::{parse_toggle, Toggle};
use crate::config::{ContextMenuEntry, ContextMenuGroup, ContextMenuGroupView};
use crate::names::Names;
use crate::text::{
    chars_of, equal_ignoring_case, lemma_position, position, position_of, same_chars, string_of,
    trim, trim_start, trimmed, trimmed_start, white_space,
};

verus! {

/// What an entry of the menu does when it is chosen.
#[derive(Debug)]
pub enum GuiCommand {
    Manga,
    Upscaling,
    Playing,
    Fit(String),
    Display(String),
    Action(String),
}

/// What such a choice is.
pub enum GuiCommandView {
    Manga,
    Upscaling,
    Playing,
    Fit(Seq<char>),
    Display(Seq<char>),
    Action(Seq<char>),
}

impl View for GuiCommand {
    type V = GuiCommandView;

    open spec fn view(&self) -> GuiCommandView {
        match self {
            GuiCommand::Manga => GuiCommandView::Manga,
            GuiCommand::Upscaling => GuiCommandView::Upscaling,
            GuiCommand::Playing => GuiCommandView::Playing,
            GuiCommand::Fit(s) => GuiCommandView::Fit(s@),
            GuiCommand::Display(s) => GuiCommandView::Display(s@),
            GuiCommand::Action(s) => GuiCommandView::Action(s@),
        }
    }
}

/// A command without an argument that only says to change something to the other state.
pub open spec fn without_toggle(s: Seq<char>) -> Seq<char> {
    let space = position(s, ' ') as int;
    if space < s.len() && parse_toggle(trim_start(s.skip(space + 1))) == Ok::<Toggle, ()>(
        Toggle::Change,
    ) {
        s.take(space)
    } else {
        s
    }
}

/// The menu entry for a command.
pub open spec fn menu_command(s: Seq<char>) -> GuiCommandView {
    let c = without_toggle(s);
    if c == "ToggleMangaMode"@ || c == "MangaMode"@ {
        GuiCommandView::Manga
    } else if c == "ToggleUpscaling"@ || c == "Upscaling"@ {
        GuiCommandView::Upscaling
    } else if c == "TogglePlaying"@ || c == "Playing"@ {
        GuiCommandView::Playing
    } else if c == "FitToContainer"@ || c == "FitToWidth"@ || c == "FitToHeight"@ || c
        == "FullSize"@ {
        GuiCommandView::Fit(c)
    } else if c == "SinglePage"@ || c == "VerticalStrip"@ || c == "HorizontalStrip"@ || c
        == "DualPage"@ || c == "DualPageReversed"@ {
        GuiCommandView::Display(c)
    } else {
        GuiCommandView::Action(c)
    }
}

fn is(v: &[char], word: &str) -> (r: bool)
    ensures
        r == (v@ == word@),
{
    let w = chars_of(word);
    same_chars(v, w.as_slice())
}

impl GuiCommandView {
    /// The name of the action behind the entry.
    pub open spec fn action(self) -> Seq<char> {
        match self {
            GuiCommandView::Manga => "manga"@,
            GuiCommandView::Upscaling => "upscaling"@,
            GuiCommandView::Playing => "playing"@,
            GuiCommandView::Fit(_) => "fit"@,
            GuiCommandView::Display(_) => "display"@,
            GuiCommandView::Action(_) => "action"@,
        }
    }

    /// What the action is told.
    pub open spec fn variant(self) -> Option<Seq<char>> {
        match self {
            GuiCommandView::Manga | GuiCommandView::Upscaling | GuiCommandView::Playing => None,
            GuiCommandView::Fit(s)
            | GuiCommandView::Display(s)
            | GuiCommandView::Action(s) => Some(s),
        }
    }
}

impl GuiCommand {
    /// The menu entry for a command.
    pub fn from(command: &[char]) -> (r: GuiCommand)
        ensures
            r@ == menu_command(command@),
    {
        let space: usize = position_of(command, ' ');
        let c: &[char] = if space < command.len() {
            let arg = trimmed_start(
                vstd::slice::slice_subrange(command, space + 1, command.len()),
            );
            assert(command@.subrange(space + 1, command@.len() as int) =~= command@.skip(
                space + 1,
            ));
            let change = match Toggle::try_from(arg) {
                Ok(Toggle::Change) => true,
                _ => false,
            };
            if change {
                assert(command@.subrange(0, space as int) =~= command@.take(space as int));
                vstd::slice::slice_subrange(command, 0, space)
            } else {
                command
            }
        } else {
            command
        };
        assert(c@ == without_toggle(command@));
        if is(c, "ToggleMangaMode") || is(c, "MangaMode") {
            GuiCommand::Manga
        } else if is(c, "ToggleUpscaling") || is(c, "Upscaling") {
            GuiCommand::Upscaling
        } else if is(c, "TogglePlaying") || is(c, "Playing") {
            GuiCommand::Playing
        } else if is(c, "FitToContainer") || is(c, "FitToWidth") || is(c, "FitToHeight") || is(
            c,
            "FullSize",
        ) {
            GuiCommand::Fit(string_of(c))
        } else if is(c, "SinglePage") || is(c, "VerticalStrip") || is(c, "HorizontalStrip") || is(
            c,
            "DualPage",
        ) || is(c, "DualPageReversed") {
            GuiCommand::Display(string_of(c))
        } else {
            GuiCommand::Action(string_of(c))
        }
    }

    /// The name of the action behind the entry.
    pub fn action(&self) -> (r: &'static str)
        ensures
            r@ == self@.action(),
    {
        match self {
            GuiCommand::Manga => "manga",
            GuiCommand::Upscaling => "upscaling",
            GuiCommand::Playing => "playing",
            GuiCommand::Fit(_) => "fit",
            GuiCommand::Display(_) => "display",
            GuiCommand::Action(_) => "action",
        }
    }

    /// What the action is told.
    pub fn variant(&self) -> (r: Option<&String>)
        ensures
            match self@.variant() {
                Some(s) => r matches Some(v) && v@ == s,
                None => r is None,
            },
    {
        match self {
            GuiCommand::Manga | GuiCommand::Upscaling | GuiCommand::Playing => None,
            GuiCommand::Fit(s) | GuiCommand::Display(s) | GuiCommand::Action(s) => Some(s),
        }
    }
}

/// An item of the menu.
#[derive(Debug)]
pub struct MenuItem {
    pub name: String,
    /// The name of the action with the group that it belongs to.
    pub action: String,
    pub target: Option<String>,
}

/// What an item is.
pub struct MenuItemView {
    pub name: Seq<char>,
    pub action: Seq<char>,
    pub target: Option<Seq<char>>,
}

impl View for MenuItem {
    type V = MenuItemView;

    open spec fn view(&self) -> MenuItemView {
        MenuItemView {
            name: self.name@,
            action: self.action@,
            target: match self.target {
                Some(t) => Some(t@),
                None => None,
            },
        }
    }
}

/// A part of the menu: an item of its own, or a group with its items.
#[derive(Debug)]
pub enum MenuPart {
    Item(MenuItem),
    Group(ContextMenuGroup, Vec<MenuItem>),
}

/// What a part of the menu is.
pub enum MenuPartView {
    Item(MenuItemView),
    Group(ContextMenuGroupView, Seq<MenuItemView>),
}

/// What some items are.
pub open spec fn item_views(v: Seq<MenuItem>) -> Seq<MenuItemView> {
    v.map_values(|i: MenuItem| i@)
}

impl View for MenuPart {
    type V = MenuPartView;

    open spec fn view(&self) -> MenuPartView {
        match self {
            MenuPart::Item(i) => MenuPartView::Item(i@),
            MenuPart::Group(g, items) => MenuPartView::Group(g@, item_views(items@)),
        }
    }
}

/// What some parts of the menu are.
pub open spec fn part_views(v: Seq<MenuPart>) -> Seq<MenuPartView> {
    v.map_values(|p: MenuPart| p@)
}

/// The item for an entry.
pub open spec fn item_for(e: ContextMenuEntry) -> MenuItemView {
    let c = menu_command(trim(e.action@));
    MenuItemView { name: e.name@, action: "context-menu."@ + c.action(), target: c.variant() }
}

/// Whether a part of the menu is a given group.
pub open spec fn is_group(p: MenuPartView, g: ContextMenuGroupView) -> bool {
    p matches MenuPartView::Group(h, _) && h == g
}

/// The place of a group in the menu from a given place on, or the length of the menu where there
/// is none.
pub open spec fn group_place(menu: Seq<MenuPartView>, g: ContextMenuGroupView, from: int) -> int
    decreases menu.len() - from,
{
    if from >= menu.len() || is_group(menu[from], g) {
        from
    } else {
        group_place(menu, g, from + 1)
    }
}

/// The menu with one more entry: at the end of its group, which is made at the end of the menu
/// when it is first used, or at the end of the menu where the entry has no group.
pub open spec fn with_entry(menu: Seq<MenuPartView>, e: ContextMenuEntry) -> Seq<MenuPartView> {
    match e.group {
        None => menu.push(MenuPartView::Item(item_for(e))),
        Some(g) => {
            let at = group_place(menu, g@, 0);
            if at < menu.len() {
                menu.update(
                    at,
                    MenuPartView::Group(g@, menu[at]->Group_1.push(item_for(e))),
                )
            } else {
                menu.push(MenuPartView::Group(g@, seq![item_for(e)]))
            }
        },
    }
}

/// The menu for some entries.
pub open spec fn menu_of(entries: Seq<ContextMenuEntry>) -> Seq<MenuPartView>
    decreases entries.len(),
{
    if entries.len() == 0 {
        seq![]
    } else {
        with_entry(menu_of(entries.drop_last()), entries.last())
    }
}

fn make_item(e: &ContextMenuEntry) -> (r: MenuItem)
    ensures
        r@ == item_for(*e),
{
    let v = chars_of(&e.action);
    let command = GuiCommand::from(trimmed(v.as_slice()));
    let mut action = "context-menu.".to_owned();
    action.append(command.action());
    let target = match command.variant() {
        Some(s) => Some(s.clone()),
        None => None,
    };
    MenuItem { name: e.name.clone(), action, target }
}

fn copy_group(g: &ContextMenuGroup) -> (r: ContextMenuGroup)
    ensures
        r@ == g@,
{
    match g {
        ContextMenuGroup::Section(x) => ContextMenuGroup::Section(x.clone()),
        ContextMenuGroup::Submenu(x) => ContextMenuGroup::Submenu(x.clone()),
    }
}

/// Where the sections and the submenus of the menu are, by their titles.
struct Groups {
    sections: Names,
    submenus: Names,
}

impl Groups {
    /// Where the groups of one kind are.
    spec fn places(self, g: ContextMenuGroupView) -> Map<Seq<char>, usize> {
        match g {
            ContextMenuGroupView::Section(_) => self.sections@,
            ContextMenuGroupView::Submenu(_) => self.submenus@,
        }
    }

    /// Whether these are the places of all groups of a menu.
    spec fn wf(self, menu: Seq<MenuPartView>) -> bool {
        forall|g: ContextMenuGroupView| #[trigger] self.has(g, menu)
    }

    /// Whether this is the place of a group if it is in the menu, and there is none if it is not.
    spec fn has(self, g: ContextMenuGroupView, menu: Seq<MenuPartView>) -> bool {
        let at = group_place(menu, g, 0);
        if at < menu.len() {
            self.places(g).dom().contains(title(g)) && self.places(g)[title(g)] == at
        } else {
            !self.places(g).dom().contains(title(g))
        }
    }

    /// The place of a group, if it is in the menu.
    fn find(&self, g: &ContextMenuGroup) -> (r: Option<usize>)
        ensures
            r == if self.places(g@).dom().contains(title(g@)) {
                Some(self.places(g@)[title(g@)])
            } else {
                None::<usize>
            },
    {
        match g {
            ContextMenuGroup::Section(x) => self.sections.find(x),
            ContextMenuGroup::Submenu(x) => self.submenus.find(x),
        }
    }

    /// Takes the place of a new group.
    fn insert(&mut self, g: &ContextMenuGroup, at: usize)
        ensures
            forall|h: ContextMenuGroupView| #[trigger]
                final(self).places(h) == if (h is Section) == (g@ is Section) {
                    old(self).places(h).insert(title(g@), at)
                } else {
                    old(self).places(h)
                },
    {
        match g {
            ContextMenuGroup::Section(x) => self.sections.insert(x.clone(), at),
            ContextMenuGroup::Submenu(x) => self.submenus.insert(x.clone(), at),
        }
    }
}

/// The title of a group.
spec fn title(g: ContextMenuGroupView) -> Seq<char> {
    match g {
        ContextMenuGroupView::Section(x) => x,
        ContextMenuGroupView::Submenu(x) => x,
    }
}

proof fn lemma_place_push(
    menu: Seq<MenuPartView>,
    p: MenuPartView,
    g: ContextMenuGroupView,
    from: int,
)
    requires
        0 <= from <= menu.len(),
    ensures
        group_place(menu.push(p), g, from) == if group_place(menu, g, from) < menu.len() {
            group_place(menu, g, from)
        } else if is_group(p, g) {
            menu.len() as int
        } else {
            menu.len() as int + 1
        },
        group_place(menu, g, from) <= menu.len(),
    decreases menu.len() - from,
{
    if from < menu.len() {
        assert(menu.push(p)[from] == menu[from]);
        lemma_place_push(menu, p, g, from + 1);
    } else {
        assert(menu.push(p)[from] == p);
        assert(group_place(menu.push(p), g, from + 1) == from + 1);
    }
}

proof fn lemma_place_update(
    menu: Seq<MenuPartView>,
    at: int,
    p: MenuPartView,
    g: ContextMenuGroupView,
    from: int,
)
    requires
        0 <= from <= menu.len(),
        0 <= at < menu.len(),
        is_group(p, g) == is_group(menu[at], g),
    ensures
        group_place(menu.update(at, p), g, from) == group_place(menu, g, from),
    decreases menu.len() - from,
{
    if from < menu.len() {
        lemma_place_update(menu, at, p, g, from + 1);
    }
}

fn add_entry(menu: &mut Vec<MenuPart>, groups: &mut Groups, e: &ContextMenuEntry)
    requires
        old(groups).wf(part_views(old(menu)@)),
    ensures
        part_views(final(menu)@) == with_entry(part_views(old(menu)@), *e),
        final(groups).wf(part_views(final(menu)@)),
{
    let item = make_item(e);
    let ghost before = part_views(menu@);
    match &e.group {
        None => {
            let ghost p = MenuPartView::Item(item@);
            menu.push(MenuPart::Item(item));
            assert(part_views(menu@) =~= before.push(p));
            proof {
                assert forall|h: ContextMenuGroupView| #[trigger] groups.has(
                    h,
                    part_views(menu@),
                ) by {
                    assert(groups.has(h, before));
                    lemma_place_push(before, p, h, 0);
                }
            }
        },
        Some(g) => {
            proof {
                lemma_group_place(before, g@, 0);
                assert(groups.has(g@, before));
            }
            match groups.find(g) {
                Some(at) => {
                    let ghost shown = item@;
                    match &mut menu[at] {
                        MenuPart::Group(_, items) => {
                            let ghost was = items@;
                            items.push(item);
                            assert(item_views(items@) =~= item_views(was).push(shown));
                        },
                        MenuPart::Item(_) => {},
                    }
                    assert(part_views(menu@) =~= with_entry(before, *e));
                    proof {
                        let p = part_views(menu@)[at as int];
                        assert forall|h: ContextMenuGroupView| #[trigger] groups.has(
                            h,
                            part_views(menu@),
                        ) by {
                            assert(groups.has(h, before));
                            lemma_place_update(before, at as int, p, h, 0);
                        }
                    }
                },
                None => {
                    let mut items: Vec<MenuItem> = Vec::new();
                    items.push(item);
                    assert(item_views(items@) =~= seq![item_for(*e)]);
                    let ghost was = *groups;
                    groups.insert(g, menu.len());
                    menu.push(MenuPart::Group(copy_group(g), items));
                    assert(part_views(menu@) =~= with_entry(before, *e));
                    proof {
                        let p = MenuPartView::Group(g@, seq![item_for(*e)]);
                        assert forall|h: ContextMenuGroupView| #[trigger] groups.has(
                            h,
                            part_views(menu@),
                        ) by {
                            assert(was.has(h, before));
                            lemma_place_push(before, p, h, 0);
                        }
                    }
                },
            }
        },
    }
}

/// The context menu for the entries of the configuration.
pub fn setup(entries: &Vec<ContextMenuEntry>) -> (r: Vec<MenuPart>)
    ensures
        part_views(r@) == menu_of(entries@),
{
    let mut menu: Vec<MenuPart> = Vec::new();
    let mut groups = Groups { sections: Names::new(), submenus: Names::new() };
    let mut i: usize = 0;
    assert(part_views(menu@) =~= seq![]);
    assert(entries@.take(0) =~= seq![]);
    while i < entries.len()
        invariant
            i <= entries@.len(),
            part_views(menu@) == menu_of(entries@.take(i as int)),
            groups.wf(part_views(menu@)),
        decreases entries.len() - i,
    {
        add_entry(&mut menu, &mut groups, &entries[i]);
        i += 1;
        assert(entries@.take(i as int).drop_last() =~= entries@.take(i - 1));
        assert(entries@.take(i as int).last() == entries@[i - 1]);
    }
    assert(entries@.take(i as int) =~= entries@);
    menu
}

/// How many items of a menu are shown.
pub open spec fn item_count(menu: Seq<MenuPartView>) -> nat
    decreases menu.len(),
{
    if menu.len() == 0 {
        0
    } else {
        item_count(menu.drop_last()) + match menu.last() {
            MenuPartView::Item(_) => 1nat,
            MenuPartView::Group(_, items) => items.len(),
        }
    }
}

proof fn lemma_group_place(menu: Seq<MenuPartView>, g: ContextMenuGroupView, from: int)
    requires
        0 <= from <= menu.len(),
    ensures
        from <= group_place(menu, g, from) <= menu.len(),
        group_place(menu, g, from) < menu.len() ==> is_group(
            menu[group_place(menu, g, from)],
            g,
        ),
        forall|i: int|
            from <= i < group_place(menu, g, from) ==> !is_group(#[trigger] menu[i], g),
    decreases menu.len() - from,
{
    if from < menu.len() && !is_group(menu[from], g) {
        lemma_group_place(menu, g, from + 1);
    }
}

proof fn lemma_count_update(menu: Seq<MenuPartView>, at: int, p: MenuPartView)
    requires
        0 <= at < menu.len(),
        menu[at] is Group,
        p is Group,
        p->Group_1.len() == menu[at]->Group_1.len() + 1,
    ensures
        item_count(menu.update(at, p)) == item_count(menu) + 1,
    decreases menu.len(),
{
    if at == menu.len() - 1 {
        assert(menu.update(at, p).drop_last() =~= menu.drop_last());
    } else {
        assert(menu.update(at, p).drop_last() =~= menu.drop_last().update(at, p));
        lemma_count_update(menu.drop_last(), at, p);
    }
}

/// Every entry of the configuration has one item in the menu.
pub proof fn law_every_entry_is_shown(entries: Seq<ContextMenuEntry>)
    ensures
        item_count(menu_of(entries)) == entries.len(),
    decreases entries.len(),
{
    if entries.len() > 0 {
        law_every_entry_is_shown(entries.drop_last());
        let menu = menu_of(entries.drop_last());
        let e = entries.last();
        match e.group {
            None => {
                assert(with_entry(menu, e).drop_last() =~= menu);
            },
            Some(g) => {
                lemma_group_place(menu, g@, 0);
                let at = group_place(menu, g@, 0);
                if at < menu.len() {
                    lemma_count_update(
                        menu,
                        at,
                        MenuPartView::Group(g@, menu[at]->Group_1.push(item_for(e))),
                    );
                } else {
                    assert(with_entry(menu, e).drop_last() =~= menu);
                }
            },
        }
    }
}

/// No group stands in the menu twice.
pub proof fn law_groups_differ(entries: Seq<ContextMenuEntry>, i: int, j: int)
    requires
        0 <= i < j < menu_of(entries).len(),
    ensures
        (menu_of(entries)[i] matches MenuPartView::Group(g, _) ==> !is_group(
            menu_of(entries)[j],
            g,
        )),
    decreases entries.len(),
{
    let menu = menu_of(entries.drop_last());
    let e = entries.last();
    match e.group {
        None => {
            if j < menu.len() {
                law_groups_differ(entries.drop_last(), i, j);
            }
        },
        Some(g) => {
            lemma_group_place(menu, g@, 0);
            let at = group_place(menu, g@, 0);
            if j < menu.len() {
                law_groups_differ(entries.drop_last(), i, j);
                if at < menu.len() {
                    assert(with_entry(menu, e)[i] == menu[i] || i == at);
                    assert(with_entry(menu, e)[j] == menu[j] || j == at);
                }
            } else {
                assert(!is_group(menu[i], g@));
            }
        },
    }
}

/// What the radio button for a fit is told.
pub open spec fn fit_state(f: Fit) -> Seq<char> {
    match f {
        Fit::Container => "FitToContainer"@,
        Fit::Height => "FitToHeight"@,
        Fit::Width => "FitToWidth"@,
        Fit::FullSize => "FullSize"@,
    }
}

/// What the radio button for a display mode is told.
pub open spec fn display_state(d: DisplayMode) -> Seq<char> {
    match d {
        DisplayMode::Single => "Single"@,
        DisplayMode::VerticalStrip => "VerticalStrip"@,
        DisplayMode::HorizontalStrip => "HorizontalStrip"@,
        DisplayMode::DualPage => "DualPage"@,
        DisplayMode::DualPageReversed => "DualPageReversed"@,
    }
}

/// The entries of the menu that change with the state of the window, each with its new state.
#[derive(Debug)]
pub struct MenuChanges {
    pub manga: Option<bool>,
    pub upscaling: Option<bool>,
    pub fit: Option<&'static str>,
    pub display: Option<&'static str>,
}

/// What has to change in the menu when the modes do.
pub fn diff_state(old_modes: Modes, new_modes: Modes) -> (r: MenuChanges)
    ensures
        r.manga == if old_modes.manga != new_modes.manga {
            Some(new_modes.manga)
        } else {
            None
        },
        r.upscaling == if old_modes.upscaling != new_modes.upscaling {
            Some(new_modes.upscaling)
        } else {
            None
        },
        old_modes.fit == new_modes.fit ==> r.fit is None,
        old_modes.fit != new_modes.fit ==> (r.fit matches Some(s) && s@ == fit_state(
            new_modes.fit,
        )),
        old_modes.display == new_modes.display ==> r.display is None,
        old_modes.display != new_modes.display ==> (r.display matches Some(s) && s@
            == display_state(new_modes.display)),
{
    MenuChanges {
        manga: if old_modes.manga != new_modes.manga {
            Some(new_modes.manga)
        } else {
            None
        },
        upscaling: if old_modes.upscaling != new_modes.upscaling {
            Some(new_modes.upscaling)
        } else {
            None
        },
        fit: if old_modes.fit != new_modes.fit {
            Some(
                match new_modes.fit {
                    Fit::Container => "FitToContainer",
                    Fit::Height => "FitToHeight",
                    Fit::Width => "FitToWidth",
                    Fit::FullSize => "FullSize",
                },
            )
        } else {
            None
        },
        display: if old_modes.display != new_modes.display {
            Some(
                match new_modes.display {
                    DisplayMode::Single => "Single",
                    DisplayMode::VerticalStrip => "VerticalStrip",
                    DisplayMode::HorizontalStrip => "HorizontalStrip",
                    DisplayMode::DualPage => "DualPage",
                    DisplayMode::DualPageReversed => "DualPageReversed",
                },
            )
        } else {
            None
        },
    }
}

proof fn lemma_words_of_entries(s: Seq<char>)
    requires
        !s.contains(' '),
    ensures
        without_toggle(s) == s,
        "ToggleMangaMode"@ != "ToggleUpscaling"@,
        "ToggleMangaMode"@ != "HorizontalStrip"@,
        "ToggleUpscaling"@ != "HorizontalStrip"@,
        "MangaMode"@ != "Upscaling"@,
        "TogglePlaying"@ != "VerticalStrip"@,
        "FitToWidth"@ != "SinglePage"@,
        "FullSize"@ != "DualPage"@,
        "ToggleMangaMode"@.len() == 15,
        "MangaMode"@.len() == 9,
        "ToggleUpscaling"@.len() == 15,
        "Upscaling"@.len() == 9,
        "TogglePlaying"@.len() == 13,
        "Playing"@.len() == 7,
        "FitToContainer"@.len() == 14,
        "FitToWidth"@.len() == 10,
        "FitToHeight"@.len() == 11,
        "FullSize"@.len() == 8,
        "SinglePage"@.len() == 10,
        "VerticalStrip"@.len() == 13,
        "HorizontalStrip"@.len() == 15,
        "DualPage"@.len() == 8,
        "DualPageReversed"@.len() == 16,
{
    lemma_position(s, ' ');
    reveal_strlit("ToggleMangaMode");
    reveal_strlit("MangaMode");
    reveal_strlit("ToggleUpscaling");
    reveal_strlit("Upscaling");
    reveal_strlit("TogglePlaying");
    reveal_strlit("Playing");
    reveal_strlit("FitToContainer");
    reveal_strlit("FitToWidth");
    reveal_strlit("FitToHeight");
    reveal_strlit("FullSize");
    reveal_strlit("SinglePage");
    reveal_strlit("VerticalStrip");
    reveal_strlit("HorizontalStrip");
    reveal_strlit("DualPage");
    reveal_strlit("DualPageReversed");
    assert("ToggleMangaMode"@[6] == 'M');
    assert("ToggleUpscaling"@[6] == 'U');
    assert("HorizontalStrip"@[6] == 'n');
    assert("MangaMode"@[0] == 'M');
    assert("Upscaling"@[0] == 'U');
    assert("TogglePlaying"@[0] == 'T');
    assert("VerticalStrip"@[0] == 'V');
    assert("FitToWidth"@[0] == 'F');
    assert("SinglePage"@[0] == 'S');
    assert("FullSize"@[0] == 'F');
    assert("DualPage"@[0] == 'D');
}

/// The entries for commands that switch something are check boxes, those for a fit or a way to
/// display pages are radio buttons, each told apart by its command, and all others run theirs.
pub proof fn law_menu_entries(s: Seq<char>)
    requires
        !s.contains(' '),
    ensures
        menu_command(s) is Manga <==> s == "MangaMode"@ || s == "ToggleMangaMode"@,
        menu_command(s) is Upscaling <==> s == "Upscaling"@ || s == "ToggleUpscaling"@,
        menu_command(s) is Playing <==> s == "Playing"@ || s == "TogglePlaying"@,
        menu_command(s) is Fit <==> s == "FitToContainer"@ || s == "FitToWidth"@ || s
            == "FitToHeight"@ || s == "FullSize"@,
        menu_command(s) is Display <==> s == "SinglePage"@ || s == "VerticalStrip"@ || s
            == "HorizontalStrip"@ || s == "DualPage"@ || s == "DualPageReversed"@,
        match menu_command(s) {
            GuiCommandView::Fit(c) => c == s,
            GuiCommandView::Display(c) => c == s,
            GuiCommandView::Action(c) => c == s,
            _ => true,
        },
{
    lemma_words_of_entries(s);
}

/// The menu entry for a command that only says to change something is that of the command alone,
/// however the word for it is written. One that says what to change it to runs as it stands.
pub proof fn law_menu_entries_that_switch(s: Seq<char>, word: Seq<char>)
    requires
        !s.contains(' '),
        word.len() > 0,
        !white_space(word[0]),
    ensures
        equal_ignoring_case(word, "toggle"@) ==> menu_command(s + seq![' '] + word)
            == menu_command(s),
        equal_ignoring_case(word, "on"@) || equal_ignoring_case(word, "off"@) ==> menu_command(
            s + seq![' '] + word,
        ) == GuiCommandView::Action(s + seq![' '] + word),
{
    let c = s + seq![' '] + word;
    let rest = seq![' '] + word;
    assert(c =~= s + rest);
    lemma_position_skips(s, rest, ' ');
    lemma_position(s, ' ');
    assert(rest[0] == ' ');
    assert(c.take(s.len() as int) =~= s);
    assert(c.skip(s.len() as int + 1) =~= word);
    assert(trim_start(word) == word);
    reveal_strlit("toggle");
    reveal_strlit("on");
    reveal_strlit("off");
    lemma_words_of_entries(s);
    assert(c[s.len() as int] == ' ');
    reveal_strlit("ToggleMangaMode");
    reveal_strlit("MangaMode");
    reveal_strlit("ToggleUpscaling");
    reveal_strlit("Upscaling");
    reveal_strlit("TogglePlaying");
    reveal_strlit("Playing");
    reveal_strlit("FitToContainer");
    reveal_strlit("FitToWidth");
    reveal_strlit("FitToHeight");
    reveal_strlit("FullSize");
    reveal_strlit("SinglePage");
    reveal_strlit("VerticalStrip");
    reveal_strlit("HorizontalStrip");
    reveal_strlit("DualPage");
    reveal_strlit("DualPageReversed");
    let i = s.len() as int;
    if c == "ToggleMangaMode"@ {
        assert("ToggleMangaMode"@[i] != ' ');
    }
    if c == "MangaMode"@ {
        assert("MangaMode"@[i] != ' ');
    }
    if c == "ToggleUpscaling"@ {
        assert("ToggleUpscaling"@[i] != ' ');
    }
    if c == "Upscaling"@ {
        assert("Upscaling"@[i] != ' ');
    }
    if c == "TogglePlaying"@ {
        assert("TogglePlaying"@[i] != ' ');
    }
    if c == "Playing"@ {
        assert("Playing"@[i] != ' ');
    }
    if c == "FitToContainer"@ {
        assert("FitToContainer"@[i] != ' ');
    }
    if c == "FitToWidth"@ {
        assert("FitToWidth"@[i] != ' ');
    }
    if c == "FitToHeight"@ {
        assert("FitToHeight"@[i] != ' ');
    }
    if c == "FullSize"@ {
        assert("FullSize"@[i] != ' ');
    }
    if c == "SinglePage"@ {
        assert("SinglePage"@[i] != ' ');
    }
    if c == "VerticalStrip"@ {
        assert("VerticalStrip"@[i] != ' ');
    }
    if c == "HorizontalStrip"@ {
        assert("HorizontalStrip"@[i] != ' ');
    }
    if c == "DualPage"@ {
        assert("DualPage"@[i] != ' ');
    }
    if c == "DualPageReversed"@ {
        assert("DualPageReversed"@[i] != ' ');
    }
}

/// The actions behind the entries. Only those that could mean several things are told which.
pub proof fn law_actions_of_entries(s: Seq<char>)
    ensures
        GuiCommandView::Manga.action() == "manga"@ && GuiCommandView::Manga.variant() is None,
        GuiCommandView::Upscaling.action() == "upscaling"@ && GuiCommandView::Upscaling.variant()
            is None,
        GuiCommandView::Playing.action() == "playing"@ && GuiCommandView::Playing.variant() is None,
        GuiCommandView::Fit(s).action() == "fit"@ && GuiCommandView::Fit(s).variant() == Some(s),
        GuiCommandView::Display(s).action() == "display"@ && GuiCommandView::Display(s).variant()
            == Some(s),
        GuiCommandView::Action(s).action() == "action"@ && GuiCommandView::Action(s).variant()
            == Some(s),
{
}

/// The item for an entry bears its name, and white space round its command makes no difference.
pub proof fn law_items_of_entries(e: ContextMenuEntry, f: ContextMenuEntry)
    requires
        trim(e.action@) == trim(f.action@),
    ensures
        item_for(e).name == e.name@,
        item_for(e).action == item_for(f).action,
        item_for(e).target == item_for(f).target,
        item_for(e).action == "context-menu."@ + menu_command(trim(e.action@)).action(),
        item_for(e).target == menu_command(trim(e.action@)).variant(),
{
}

/// One more entry leaves those before it where they are. It comes last in its group, and last in
/// the menu if it has none. A group comes last in the menu with its first entry.
pub proof fn law_entries_come_last(entries: Seq<ContextMenuEntry>, e: ContextMenuEntry)
    ensures
        ({
            let was = menu_of(entries);
            let now = menu_of(entries.push(e));
            &&& e.group is None ==> now == was.push(MenuPartView::Item(item_for(e)))
            &&& e.group matches Some(g) ==> {
                if exists|i: int| 0 <= i < was.len() && is_group(#[trigger] was[i], g@) {
                    &&& now.len() == was.len()
                    &&& forall|i: int|
                        0 <= i < was.len() && !is_group(was[i], g@) ==> #[trigger] now[i] == was[i]
                    &&& exists|i: int|
                        0 <= i < was.len() && is_group(was[i], g@) && #[trigger] now[i]
                            == MenuPartView::Group(g@, was[i]->Group_1.push(item_for(e)))
                } else {
                    now == was.push(MenuPartView::Group(g@, seq![item_for(e)]))
                }
            }
        }),
{
    let was = menu_of(entries);
    let now = menu_of(entries.push(e));
    assert(entries.push(e).drop_last() =~= entries);
    assert(now == with_entry(was, e));
    if let Some(g) = e.group {
        lemma_group_place(was, g@, 0);
        let at = group_place(was, g@, 0);
        if at < was.len() {
            assert(is_group(was[at], g@));
            assert(now[at] == MenuPartView::Group(g@, was[at]->Group_1.push(item_for(e))));
        }
    }
}

/// Each fit and each way to display pages has a radio button of its own.
pub proof fn law_radio_buttons()
    ensures
        fit_state(Fit::Container) == "FitToContainer"@,
        fit_state(Fit::Height) == "FitToHeight"@,
        fit_state(Fit::Width) == "FitToWidth"@,
        fit_state(Fit::FullSize) == "FullSize"@,
        display_state(DisplayMode::Single) == "Single"@,
        display_state(DisplayMode::VerticalStrip) == "VerticalStrip"@,
        display_state(DisplayMode::HorizontalStrip) == "HorizontalStrip"@,
        display_state(DisplayMode::DualPage) == "DualPage"@,
        display_state(DisplayMode::DualPageReversed) == "DualPageReversed"@,
{
}

} // verus!
