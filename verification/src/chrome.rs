//! The window's own parts: the tab bar above the views, the status strip below
//! them, and the Dock badge.
use vstd::prelude::*;

use crate::text::{decimal, same, to_decimal};

verus! {

broadcast use vstd::string::group_string_axioms;

/// Status strip height (collapsed).
pub const STRIP: u32 = 28;

/// Height of the status webview while an overlay card is open.
pub const OVERLAY_H: u32 = 340;

/// Tab bar height when only the tab strip is shown.
pub const TABBAR_H: u32 = 36;

/// Tab bar height while the "add connection" dialog is open. The dialog lives in
/// the tab-bar webview, so that webview must be tall enough to contain it.
pub const TABBAR_EXPANDED_H: u32 = 420;

/// The views between the bars are never lower than this.
pub const MIN_CONTENT_H: u32 = 200;

/// Whether a mode opens an overlay card: "none" collapses; "usage" | "update" |
/// "remote" all expand.
pub fn overlay_open(mode: &str) -> (r: bool)
    ensures
        r == (mode@ != "none"@ && mode@.len() > 0),
{
    !same(mode, "none") && !mode.is_empty()
}

/// The tab bar's height.
pub fn tabbar_height(expanded: bool) -> (r: u32)
    ensures
        r == if expanded {
            TABBAR_EXPANDED_H
        } else {
            TABBAR_H
        },
{
    if expanded {
        TABBAR_EXPANDED_H
    } else {
        TABBAR_H
    }
}

/// The status webview's height: it grows upward over the views, which do not
/// move.
pub fn status_height(overlay: bool) -> (r: u32)
    ensures
        r == if overlay {
            OVERLAY_H
        } else {
            STRIP
        },
{
    if overlay {
        OVERLAY_H
    } else {
        STRIP
    }
}

/// The Dock icon's badge for a number of unread notifications; none clears it.
pub fn badge_label(count: u32) -> (r: Option<String>)
    ensures
        crate::web::opt_text(r) == if count == 0 {
            None
        } else {
            Some(decimal(count as nat))
        },
{
    if count == 0 {
        None
    } else {
        Some(to_decimal(count as u64))
    }
}

/// The open parts are higher than the closed ones, and leave room for the views.
pub proof fn open_parts_are_higher()
    ensures
        STRIP == 28 && OVERLAY_H == 340 && TABBAR_H == 36 && TABBAR_EXPANDED_H == 420 && MIN_CONTENT_H
            == 200,
{
}

} // verus!
