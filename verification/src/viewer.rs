//! How the viewer moves between its views and pages: a history of views that
//! the back button walks, a settings page that sits over the main page, and the
//! window title.
use vstd::prelude::*;

verus! {

broadcast use vstd::string::group_string_axioms;

/// The views of the main page.
#[derive(Debug, Clone, Copy, PartialEq, Eq, Structural)]
pub enum ViewMode {
    Summary,
    Grid,
    ComplexBlock,
}

/// The pages. They act like tabs: while the settings page is shown, the main
/// page stays around behind it.
#[derive(Debug, Clone, PartialEq, Eq, Structural)]
pub enum Page {
    Main,
    Settings,
}

/// The navigation state of the viewer.
pub struct Navigation {
    pub current_page: Page,
    /// The views left, most recent last.
    pub navigation_history: Vec<ViewMode>,
    /// The next change of view is a step back and is not recorded.
    pub skip_nav_history_update: bool,
    /// The view shown.
    pub view_mode: ViewMode,
    /// The view to show from the next frame on.
    pub next_view_mode: ViewMode,
}

/// The navigation state as values.
pub struct NavModel {
    pub page: Page,
    pub history: Seq<ViewMode>,
    pub skip: bool,
    pub view: ViewMode,
    pub next: ViewMode,
}

impl View for Navigation {
    type V = NavModel;

    open spec fn view(&self) -> NavModel {
        NavModel {
            page: self.current_page,
            history: self.navigation_history@,
            skip: self.skip_nav_history_update,
            view: self.view_mode,
            next: self.next_view_mode,
        }
    }
}

/// The state at start: the summary view of the main page, no history.
pub open spec fn nav_initial() -> NavModel {
    NavModel { page: Page::Main, history: Seq::empty(), skip: false, view: ViewMode::Summary, next: ViewMode::Summary }
}

/// The back button: from the settings page, back to the main page; else back to
/// the most recent view of the history, which is taken off it, the change not to
/// be recorded; with no history, nothing.
pub open spec fn nav_back(m: NavModel) -> NavModel {
    if m.page == Page::Settings {
        NavModel { page: Page::Main, ..m }
    } else if m.history.len() > 0 {
        NavModel { history: m.history.drop_last(), next: m.history.last(), skip: true, ..m }
    } else {
        m
    }
}

/// The back button does something.
pub open spec fn nav_back_enabled(m: NavModel) -> bool {
    m.page == Page::Settings || m.history.len() > 0
}

/// Asking for the view `v` from the next frame on.
pub open spec fn nav_request(m: NavModel, v: ViewMode) -> NavModel {
    NavModel { next: v, ..m }
}

/// The end of a frame: where the next view differs from the shown one, the shown
/// one is recorded in the history (unless the change is a step back) and the next
/// one is shown.
pub open spec fn nav_commit(m: NavModel) -> NavModel {
    if m.view != m.next {
        NavModel {
            history: if m.skip { m.history } else { m.history.push(m.view) },
            skip: false,
            view: m.next,
            ..m
        }
    } else {
        m
    }
}

impl Navigation {
    /// The state at start.
    pub fn new() -> (r: Navigation)
        ensures
            r@ == nav_initial(),
    {
        Navigation {
            current_page: Page::Main,
            navigation_history: Vec::new(),
            skip_nav_history_update: false,
            view_mode: ViewMode::Summary,
            next_view_mode: ViewMode::Summary,
        }
    }

    /// The back button.
    pub fn navigate_back(&mut self)
        ensures
            final(self)@ == nav_back(old(self)@),
    {
        if self.current_page == Page::Settings {
            self.current_page = Page::Main;
            return;
        }
        // Navigate back in view mode history
        if let Some(previous_mode) = self.navigation_history.pop() {
            self.next_view_mode = previous_mode;
            self.skip_nav_history_update = true;
        }
    }

    /// Shows the settings page.
    pub fn open_settings(&mut self)
        ensures
            final(self)@ == (NavModel { page: Page::Settings, ..old(self)@ }),
    {
        self.current_page = Page::Settings;
    }

    /// Asks for the view `mode` from the next frame on.
    pub fn request_view(&mut self, mode: ViewMode)
        ensures
            final(self)@ == nav_request(old(self)@, mode),
    {
        self.next_view_mode = mode;
    }

    /// Whether the back button does something.
    pub fn back_enabled(&self) -> (r: bool)
        ensures
            r == nav_back_enabled(self@),
    {
        self.current_page == Page::Settings || !self.navigation_history.is_empty()
    }

    /// The hint shown over the back button.
    pub fn back_hover_text(&self) -> (r: &'static str)
        ensures
            r@ == (if self.current_page == Page::Settings {
                "Back to main"@
            } else if self.view_mode == ViewMode::ComplexBlock {
                "Back to grid view"@
            } else {
                "Go back"@
            }),
    {
        if self.current_page == Page::Settings {
            "Back to main"
        } else if self.view_mode == ViewMode::ComplexBlock {
            "Back to grid view"
        } else {
            "Go back"
        }
    }

    /// The end of a frame. Returns the views left and entered where the view changes.
    pub fn commit_view_change(&mut self) -> (r: Option<(ViewMode, ViewMode)>)
        ensures
            final(self)@ == nav_commit(old(self)@),
            r == (if old(self).view_mode != old(self).next_view_mode {
                Some((old(self).view_mode, old(self).next_view_mode))
            } else {
                None
            }),
    {
        if self.view_mode != self.next_view_mode {
            // Push current mode to history before transitioning
            if !self.skip_nav_history_update {
                self.navigation_history.push(self.view_mode);
            }
            self.skip_nav_history_update = false;
            let left = self.view_mode;
            self.view_mode = self.next_view_mode;
            Some((left, self.view_mode))
        } else {
            None
        }
    }
}

/// The back button after a change of view returns to the view left, with the
/// history as it was before the change.
pub proof fn law_back_undoes_view_change(m: NavModel, v: ViewMode)
    requires
        m.page == Page::Main,
        !m.skip,
        m.view == m.next,
        v != m.view,
    ensures
        ({
            let changed = nav_commit(nav_request(m, v));
            let back = nav_commit(nav_back(changed));
            &&& changed.view == v
            &&& changed.history == m.history.push(m.view)
            &&& back.view == m.view
            &&& back.next == m.view
            &&& back.history == m.history
            &&& !back.skip
            &&& back.page == Page::Main
        }),
{
    let changed = nav_commit(nav_request(m, v));
    assert(changed.history.drop_last() =~= m.history);
}

/// The back button on the settings page returns to the main page and leaves the
/// views and their history alone.
pub proof fn law_back_leaves_settings(m: NavModel)
    requires
        m.page == Page::Settings,
    ensures
        nav_back(m) == (NavModel { page: Page::Main, ..m }),
{
}

/// The back button changes the state exactly when it is enabled.
pub proof fn law_back_enabled_iff_effective(m: NavModel)
    ensures
        nav_back_enabled(m) <==> nav_back(m) != m,
{
    if m.page != Page::Settings && m.history.len() > 0 {
        assert(nav_back(m).history.len() == m.history.len() - 1);
    }
}

/// The title of the window: the name of the loaded file after the program's name,
/// where there is a name.
pub open spec fn window_title(file_name: Option<Seq<char>>) -> Seq<char> {
    match file_name {
        Some(name) => if name.len() > 0 {
            "FPGA Architecture Visualizer - "@ + name
        } else {
            "FPGA Architecture Visualizer"@
        },
        None => "FPGA Architecture Visualizer"@,
    }
}

/// The title of the window for the loaded file's name.
pub fn desired_window_title(file_name: Option<&str>) -> (r: String)
    ensures
        r@ == window_title(
            match file_name {
                Some(n) => Some(n@),
                None => None,
            },
        ),
{
    match file_name {
        Some(name) if !name.is_empty() => {
            let mut t = String::from_str("FPGA Architecture Visualizer - ");
            t.append(name);
            t
        },
        _ => String::from_str("FPGA Architecture Visualizer"),
    }
}

/// The summary view. It holds no state of its own.
pub struct SummaryView {}

impl Default for SummaryView {
    fn default() -> (r: SummaryView)
        ensures
            r == (SummaryView {}),
    {
        SummaryView {}
    }
}

} // verus!
