//! What the engine asks of the platform: the desktop's application windows,
//! browser sessions driven over CDP, the kinds of mouse click, and tab
//! descriptions.
use vstd::prelude::*;

use crate::error::AutomataError;
use crate::search::UiElement;

verus! {

/// Title and URL of a browser tab.
#[derive(Debug, Clone)]
pub struct TabInfo {
    pub title: String,
    pub url: String,
}

/// A browser controlled over CDP. Implemented by each platform.
pub trait Browser: Send + Sync + 'static {
    /// Ensures the browser runs with CDP enabled.
    fn ensure(&self) -> Result<(), AutomataError>;

    /// Opens a tab at `url` (or a blank one); returns its CDP id.
    fn open_tab(&self, url: Option<&str>) -> Result<String, AutomataError>;

    /// Closes a tab by CDP id.
    fn close_tab(&self, tab_id: &str) -> Result<(), AutomataError>;

    /// Brings a tab to the foreground.
    fn activate_tab(&self, tab_id: &str) -> Result<(), AutomataError>;

    /// Navigates a tab to `url`.
    fn navigate(&self, tab_id: &str, url: &str) -> Result<(), AutomataError>;

    /// Evaluates a JavaScript expression in a tab; returns its string result.
    fn eval(&self, tab_id: &str, expr: &str) -> Result<String, AutomataError>;

    /// Title and URL of one tab.
    fn tab_info(&self, tab_id: &str) -> Result<TabInfo, AutomataError>;

    /// All open tabs with their ids.
    fn tabs(&self) -> Result<Vec<(String, TabInfo)>, AutomataError>;
}

/// The desktop as the shadow DOM reads it: its top-level application
/// windows, their stacking order, and the browser. Implemented by each
/// platform back end.
pub trait UiDesktop {
    type Elem: UiElement;
    type Browser: Browser;

    /// The browser controlled over CDP.
    fn browser(&self) -> &Self::Browser;

    /// The top-level application windows.
    fn application_windows(&self) -> Result<Vec<Self::Elem>, AutomataError>;

    /// Window handles, topmost first; empty when the platform cannot tell.
    fn hwnd_z_order(&self) -> (r: Vec<u64>)
        default_ensures
            r@.len() == 0,
    {
        Vec::new()
    }
}

/// Kind of mouse click.
#[derive(Debug, Clone, Copy, PartialEq, Eq, Structural)]
pub enum ClickType {
    Left,
    Double,
    Triple,
    Right,
    Middle,
}

} // verus!
