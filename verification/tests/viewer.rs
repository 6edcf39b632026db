use fpga_arch_viewer::viewer::{desired_window_title, Navigation, Page, ViewMode};

#[test]
fn back_returns_to_the_view_left() {
    let mut nav = Navigation::new();
    assert_eq!(nav.view_mode, ViewMode::Summary);
    assert!(!nav.back_enabled());
    nav.request_view(ViewMode::Grid);
    assert_eq!(nav.commit_view_change(), Some((ViewMode::Summary, ViewMode::Grid)));
    assert_eq!(nav.navigation_history, vec![ViewMode::Summary]);
    assert!(nav.back_enabled());
    nav.request_view(ViewMode::ComplexBlock);
    assert_eq!(nav.commit_view_change(), Some((ViewMode::Grid, ViewMode::ComplexBlock)));
    assert_eq!(nav.back_hover_text(), "Back to grid view");
    nav.navigate_back();
    assert_eq!(nav.commit_view_change(), Some((ViewMode::ComplexBlock, ViewMode::Grid)));
    assert_eq!(nav.navigation_history, vec![ViewMode::Summary]);
    assert!(!nav.skip_nav_history_update);
    nav.navigate_back();
    assert_eq!(nav.commit_view_change(), Some((ViewMode::Grid, ViewMode::Summary)));
    assert!(nav.navigation_history.is_empty());
    assert_eq!(nav.commit_view_change(), None);
}

#[test]
fn back_from_settings_returns_to_main() {
    let mut nav = Navigation::new();
    nav.request_view(ViewMode::Grid);
    nav.commit_view_change();
    nav.open_settings();
    assert_eq!(nav.current_page, Page::Settings);
    assert_eq!(nav.back_hover_text(), "Back to main");
    nav.navigate_back();
    assert_eq!(nav.current_page, Page::Main);
    assert_eq!(nav.view_mode, ViewMode::Grid);
    assert_eq!(nav.navigation_history, vec![ViewMode::Summary]);
    assert_eq!(nav.back_hover_text(), "Go back");
}

#[test]
fn back_with_no_history_does_nothing() {
    let mut nav = Navigation::new();
    nav.navigate_back();
    assert_eq!(nav.next_view_mode, ViewMode::Summary);
    assert!(!nav.skip_nav_history_update);
    assert_eq!(nav.commit_view_change(), None);
}

#[test]
fn window_title() {
    assert_eq!(desired_window_title(Some("arch.xml")), "FPGA Architecture Visualizer - arch.xml");
    assert_eq!(desired_window_title(Some("")), "FPGA Architecture Visualizer");
    assert_eq!(desired_window_title(None), "FPGA Architecture Visualizer");
}
