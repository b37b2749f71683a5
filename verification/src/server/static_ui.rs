//! Routing for the embedded static UI.

use vstd::prelude::*;
use crate::text::str_equals;

verus! {

/// The files of the embedded UI.
#[derive(Debug, Clone, Copy, PartialEq, Eq, Structural)]
pub enum UiAsset {
    Index,
    Style,
    Script,
}

/// The asset served at a request path: `/` and `/index.html` give the page,
/// `/style.css` and `/app.js` the style sheet and script; anything else is
/// not found.
pub open spec fn spec_asset_for_path(path: Seq<char>) -> Option<UiAsset> {
    if path == "/"@ || path == "/index.html"@ {
        Some(UiAsset::Index)
    } else if path == "/style.css"@ {
        Some(UiAsset::Style)
    } else if path == "/app.js"@ {
        Some(UiAsset::Script)
    } else {
        None
    }
}

pub fn asset_for_path(path: &str) -> (r: Option<UiAsset>)
    ensures
        r == spec_asset_for_path(path@),
{
    if str_equals(path, "/") || str_equals(path, "/index.html") {
        Some(UiAsset::Index)
    } else if str_equals(path, "/style.css") {
        Some(UiAsset::Style)
    } else if str_equals(path, "/app.js") {
        Some(UiAsset::Script)
    } else {
        None
    }
}

impl UiAsset {
    /// The `Content-Type` the asset is served with.
    pub fn content_type(self) -> (r: &'static str)
        ensures
            r@ == match self {
                UiAsset::Index => "text/html; charset=utf-8"@,
                UiAsset::Style => "text/css; charset=utf-8"@,
                UiAsset::Script => "text/javascript; charset=utf-8"@,
            },
    {
        match self {
            UiAsset::Index => "text/html; charset=utf-8",
            UiAsset::Style => "text/css; charset=utf-8",
            UiAsset::Script => "text/javascript; charset=utf-8",
        }
    }
}

} // verus!
