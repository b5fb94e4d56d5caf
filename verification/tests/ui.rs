use mc_client::ui::assets::Assets;
use mc_client::ui::sidebar::{sidebar_button_icon_path, sidebar_button_id, Sidebar, SidebarTab};

#[test]
fn tabs_and_icons() {
    let tabs = SidebarTab::all();
    assert_eq!(tabs.len(), 4);
    let labels: Vec<&str> = tabs.iter().map(|t| t.as_str()).collect();
    assert_eq!(labels, vec!["library", "explore", "profile", "settings"]);
    assert_eq!(SidebarTab::Explore.icon_path(), "icons/explore.svg");
    assert_eq!(sidebar_button_icon_path("home"), "icons/home_large.svg");
    assert_eq!(sidebar_button_id("home"), "sidebar-home-button");
}

#[test]
fn selecting_a_tab_makes_it_active() {
    let mut sidebar = Sidebar { active_tab: SidebarTab::Explore };
    assert!(sidebar.is_active(SidebarTab::Explore));
    sidebar.select(SidebarTab::Settings);
    assert!(sidebar.is_active(SidebarTab::Settings));
    assert!(!sidebar.is_active(SidebarTab::Explore));
}

#[test]
fn assets_live_beside_the_manifest() {
    let assets = Assets::new("/src/mc-client");
    assert_eq!(assets.base(), "/src/mc-client/assets");
    assert_eq!(assets.resolve("icons/explore.svg"), "/src/mc-client/assets/icons/explore.svg");
}
