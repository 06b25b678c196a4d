//! State of a mounted tab anchor, and the decisions taken while mounting one
//! and while scoping selectors to its document.
use vstd::prelude::*;

use crate::error::{error_text, AutomataError};
use crate::platform::{Browser, TabInfo};
use crate::selector::{is_internal, spec_display, spec_parse, SelectorPath, StepView};
use crate::text::{append, chars_of, debug_quoted, debug_str, eq_chars, string_of};

verus! {

/// State of a mounted `Tab` anchor.
#[derive(Debug, Clone)]
pub struct TabHandle {
    /// CDP target id of the tab.
    pub tab_id: String,
    /// Name of the parent `Browser` anchor.
    pub parent_browser: String,
    /// Whether the workflow opened the tab (and so closes it on unmount),
    /// rather than attaching to one that was already open.
    pub created: bool,
    /// Subflow depth at which the tab was mounted.
    pub depth: usize,
}

/// A tab that can be taken over as new: a new-tab page, `about:blank`, or
/// no URL at all.
pub open spec fn is_blank_url(url: Seq<char>) -> bool {
    url == "edge://newtab/"@ || url == "about:blank"@ || url.len() == 0
}

pub open spec fn tab_urls(tabs: Seq<(String, TabInfo)>) -> Seq<Seq<char>> {
    tabs.map_values(|t: (String, TabInfo)| t.1.url@)
}

/// The text the document-scoped selector is built from.
pub open spec fn document_selector_text(sel: Seq<StepView>) -> Seq<char> {
    ">> [id=RootWebArea] >> "@ + spec_display(sel)
}

/// The message given when the tab is not the visible one.
pub open spec fn not_active_message(tab_id: Seq<char>, visibility: Seq<char>) -> Seq<char> {
    "tab '"@ + tab_id + "' is not the active tab (visibilityState="@ + debug_quoted(visibility) + ")"@
}

/// What scoping a selector to tab `h` gives, once the page reported
/// `visibility` as its `document.visibilityState` (an error counts as empty):
/// refused unless the tab is the visible one; else the parent browser's name
/// and `>> [id=RootWebArea] >> <selector>`, or the error parsing that text.
pub open spec fn scoped_outcome(
    h: TabHandle,
    visibility: Result<String, AutomataError>,
    sel: Seq<StepView>,
    r: Result<(String, SelectorPath), AutomataError>,
) -> bool {
    let vis = match visibility {
        Ok(v) => v@,
        Err(_) => Seq::<char>::empty(),
    };
    if vis != "visible"@ {
        r matches Err(e) && is_internal(e, not_active_message(h.tab_id@, vis))
    } else {
        match spec_parse(document_selector_text(sel)) {
            Ok(steps) => r matches Ok((b, p)) && b@ == h.parent_browser@ && p@ == steps,
            Err(m) => r matches Err(e) && is_internal(e, "tab selector build: "@ + m),
        }
    }
}

impl TabHandle {
    /// Index of the first tab that can be taken over as new.
    pub fn blank_tab(tabs: &Vec<(String, TabInfo)>) -> (r: Option<usize>)
        ensures
            match r {
                Some(i) => i < tabs@.len() && is_blank_url(tab_urls(tabs@)[i as int]) && forall|j: int|
                    0 <= j < i ==> !is_blank_url(#[trigger] tab_urls(tabs@)[j]),
                None => forall|j: int| 0 <= j < tabs@.len() ==> !is_blank_url(#[trigger] tab_urls(tabs@)[j]),
            },
    {
        let newtab = chars_of("edge://newtab/");
        let blank = chars_of("about:blank");
        let mut i: usize = 0;
        while i < tabs.len()
            invariant
                i <= tabs@.len(),
                newtab@ == "edge://newtab/"@,
                blank@ == "about:blank"@,
                forall|j: int| 0 <= j < i ==> !is_blank_url(#[trigger] tab_urls(tabs@)[j]),
            decreases tabs@.len() - i,
        {
            let u = chars_of(tabs[i].1.url.as_str());
            assert(u@ == tab_urls(tabs@)[i as int]);
            if eq_chars(&u, &newtab) || eq_chars(&u, &blank) || u.len() == 0 {
                return Some(i);
            }
            i = i + 1;
        }
        None
    }

    /// Index of the first tab whose title and URL `selector` matches.
    pub fn matching_tab(selector: &SelectorPath, tabs: &Vec<(String, TabInfo)>) -> (r: Option<usize>)
        ensures
            match r {
                Some(i) => i < tabs@.len() && crate::selector::spec_matches_tab_info(
                    selector@,
                    tabs@[i as int].1.title@,
                    tabs@[i as int].1.url@,
                ) && forall|j: int|
                    0 <= j < i ==> !crate::selector::spec_matches_tab_info(
                        selector@,
                        #[trigger] tabs@[j].1.title@,
                        tabs@[j].1.url@,
                    ),
                None => forall|j: int|
                    0 <= j < tabs@.len() ==> !crate::selector::spec_matches_tab_info(
                        selector@,
                        #[trigger] tabs@[j].1.title@,
                        tabs@[j].1.url@,
                    ),
            },
    {
        let mut i: usize = 0;
        while i < tabs.len()
            invariant
                i <= tabs@.len(),
                forall|j: int|
                    0 <= j < i ==> !crate::selector::spec_matches_tab_info(
                        selector@,
                        #[trigger] tabs@[j].1.title@,
                        tabs@[j].1.url@,
                    ),
            decreases tabs@.len() - i,
        {
            if selector.matches_tab_info(tabs[i].1.title.as_str(), tabs[i].1.url.as_str()) {
                return Some(i);
            }
            i = i + 1;
        }
        None
    }

    /// Closes the tab through `browser` if the workflow opened it; a tab that
    /// was attached to is left open. A failure to close is not reported.
    pub fn close_if_created<B: Browser>(&self, browser: &B) {
        if self.created {
            let _ = browser.close_tab(self.tab_id.as_str());
        }
    }

    /// The document-scoped selector for this tab, given what the page
    /// reported as `document.visibilityState` (an error counts as empty).
    /// Refused unless the tab is the visible one; on success, gives the parent
    /// browser's name and `>> [id=RootWebArea] >> <selector>`.
    pub fn scoped_selector_from(
        &self,
        visibility: Result<String, AutomataError>,
        selector: &SelectorPath,
    ) -> (r: Result<(String, SelectorPath), AutomataError>)
        ensures
            scoped_outcome(*self, visibility, selector@, r),
    {
        let vis: String = match visibility {
            Ok(v) => v,
            Err(_) => String::new(),
        };
        let vc = chars_of(vis.as_str());
        if !eq_chars(&vc, &chars_of("visible")) {
            let mut msg = chars_of("tab '");
            append(&mut msg, &chars_of(self.tab_id.as_str()));
            append(&mut msg, &chars_of("' is not the active tab (visibilityState="));
            let q = debug_str(vis.as_str());
            append(&mut msg, &chars_of(q.as_str()));
            append(&mut msg, &chars_of(")"));
            return Err(AutomataError::Internal(string_of(&msg)));
        }
        let mut text = chars_of(">> [id=RootWebArea] >> ");
        let shown = selector.to_string();
        append(&mut text, &chars_of(shown.as_str()));
        let text_s = string_of(&text);
        match SelectorPath::parse(text_s.as_str()) {
            Ok(p) => Ok((self.parent_browser.clone(), p)),
            Err(e) => {
                let mut msg = chars_of("tab selector build: ");
                let et = e.to_string();
                append(&mut msg, &chars_of(et.as_str()));
                Err(AutomataError::Internal(string_of(&msg)))
            },
        }
    }

    /// Scopes `selector` to this tab's document, after asking `browser`, by
    /// `eval` of `document.visibilityState` in this tab, whether the tab is
    /// the visible one (see `scoped_selector_from`).
    pub fn scoped_selector<B: Browser>(&self, browser: &B, selector: &SelectorPath) -> (r: Result<
        (String, SelectorPath),
        AutomataError,
    >)
        ensures
            match r {
                Ok((b, p)) => b@ == self.parent_browser@ && spec_parse(
                    document_selector_text(selector@),
                ) == Ok::<Seq<StepView>, Seq<char>>(p@),
                Err(e) => e is Internal,
            },
            exists|t: &str, js: &str, v: Result<String, AutomataError>|
                t@ == self.tab_id@ && js@ == "document.visibilityState"@ && #[trigger] call_ensures(
                    B::eval,
                    (browser, t, js),
                    v,
                ) && scoped_outcome(*self, v, selector@, r),
    {
        let t = self.tab_id.as_str();
        let js = "document.visibilityState";
        let visibility = browser.eval(t, js);
        assert(call_ensures(B::eval, (browser, t, js), visibility));
        self.scoped_selector_from(visibility, selector)
    }
}

} // verus!
