use vstd::prelude::*;

use crate::text::{copy_str, push_str};

verus! {

/// A tab of the sidebar.
#[derive(Clone, Copy, Debug, PartialEq, Eq, Structural)]
pub enum SidebarTab {
    Library,
    Explore,
    Profile,
    Settings,
}

/// The label of a tab, which also names its icon.
pub open spec fn tab_label(tab: SidebarTab) -> Seq<char> {
    match tab {
        SidebarTab::Library => "library"@,
        SidebarTab::Explore => "explore"@,
        SidebarTab::Profile => "profile"@,
        SidebarTab::Settings => "settings"@,
    }
}

impl SidebarTab {
    /// Every tab, top to bottom.
    pub fn all() -> (r: Vec<SidebarTab>)
        ensures
            r@ == seq![SidebarTab::Library, SidebarTab::Explore, SidebarTab::Profile, SidebarTab::Settings],
    {
        let r = vec![SidebarTab::Library, SidebarTab::Explore, SidebarTab::Profile, SidebarTab::Settings];
        assert(r@ =~= seq![SidebarTab::Library, SidebarTab::Explore, SidebarTab::Profile, SidebarTab::Settings]);
        r
    }

    /// The label of the tab.
    pub fn as_str(self) -> (r: &'static str)
        ensures
            r@ == tab_label(self),
    {
        match self {
            SidebarTab::Library => "library",
            SidebarTab::Explore => "explore",
            SidebarTab::Profile => "profile",
            SidebarTab::Settings => "settings",
        }
    }

    /// The icon of the tab: `icons/<label>.svg`.
    pub fn icon_path(self) -> (r: String)
        ensures
            r@ == "icons/"@ + tab_label(self) + ".svg"@,
    {
        let mut r = copy_str("icons/");
        push_str(&mut r, self.as_str());
        push_str(&mut r, ".svg");
        r
    }
}

/// The sidebar and the tab it shows as active.
#[derive(Debug)]
pub struct Sidebar {
    pub active_tab: SidebarTab,
}

impl Sidebar {
    /// Whether `tab` is the active one.
    pub fn is_active(&self, tab: SidebarTab) -> (r: bool)
        ensures
            r == (self.active_tab == tab),
    {
        self.active_tab == tab
    }

    /// Makes `tab` the active one, as clicking it does.
    pub fn select(&mut self, tab: SidebarTab)
        ensures
            final(self).active_tab == tab,
    {
        self.active_tab = tab;
    }
}

/// The large icon of a sidebar button: `icons/<icon>_large.svg`.
pub fn sidebar_button_icon_path(icon: &str) -> (r: String)
    ensures
        r@ == "icons/"@ + icon@ + "_large.svg"@,
{
    let mut r = copy_str("icons/");
    push_str(&mut r, icon);
    push_str(&mut r, "_large.svg");
    r
}

/// The element id of a sidebar button: `sidebar-<icon>-button`.
pub fn sidebar_button_id(icon: &str) -> (r: String)
    ensures
        r@ == "sidebar-"@ + icon@ + "-button"@,
{
    let mut r = copy_str("sidebar-");
    push_str(&mut r, icon);
    push_str(&mut r, "-button");
    r
}

/// Different tabs have different labels, and so different icons.
pub proof fn lemma_tab_labels_distinct(a: SidebarTab, b: SidebarTab)
    requires
        a != b,
    ensures
        tab_label(a) != tab_label(b),
{
    reveal_strlit("library");
    reveal_strlit("explore");
    reveal_strlit("profile");
    reveal_strlit("settings");
    assert("library"@[0] == 'l');
    assert("explore"@[0] == 'e');
    assert("profile"@[0] == 'p');
    assert("settings"@[0] == 's');
    assert(tab_label(a)[0] != tab_label(b)[0]);
}

} // verus!
