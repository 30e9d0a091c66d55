//! Maps a raw inline style to a semantic box class, and decides whether the
//! raw style must also be kept.
use vstd::prelude::*;
use crate::text::{contains, contains_text, same_text};

verus! {

pub open spec fn has(style: Seq<char>, part: &str) -> bool {
    contains(style, part@)
}

/// The style declares some background of its own.
pub open spec fn has_background(style: Seq<char>) -> bool {
    has(style, "background-color:") || has(style, "background-color=") || has(style, "background:")
        || has(style, "--b3-parent-background")
}

/// The box class that a style maps to, before any inline prefix.
pub open spec fn base_class(style: Seq<char>) -> Option<Seq<char>> {
    if has(style, "var(--b3-card-info-background)") && has(style, "var(--b3-card-info-color)") {
        Some("info-box"@)
    } else if has(style, "var(--b3-card-success-background)") && has(
        style,
        "var(--b3-card-success-color)",
    ) {
        Some("success-box"@)
    } else if has(style, "var(--b3-card-warning-background)") && has(
        style,
        "var(--b3-card-warning-color)",
    ) {
        Some("warning-box"@)
    } else if has(style, "var(--b3-card-error-background)") && has(
        style,
        "var(--b3-card-error-color)",
    ) {
        Some("error-box"@)
    } else if has_background(style) {
        Some("custom-box"@)
    } else {
        None
    }
}

/// The class for a style, prefixed with `inline-` in an inline context.
pub open spec fn style_class(style: Seq<char>, inline: bool) -> Option<Seq<char>> {
    match base_class(style) {
        Some(b) => Some(if inline { "inline-"@ + b } else { b }),
        None => None,
    }
}

/// The raw style is kept beside the class exactly when no predefined
/// background/color pair matched and the style declares a background of its
/// own (the custom box), so that its color still applies.
pub open spec fn keeps_style(style: Seq<char>) -> bool {
    base_class(style) == Some("custom-box"@)
}

/// The view of an optional class name.
pub open spec fn opt_view(o: Option<String>) -> Option<Seq<char>> {
    match o {
        Some(s) => Some(s@),
        None => None,
    }
}

/// Classifies a style: the semantic class, if any, and whether the raw style
/// must be kept beside it.
pub fn get_style_class(style: &str, is_inline: bool) -> (r: (Option<String>, bool))
    ensures
        opt_view(r.0) == style_class(style@, is_inline),
        r.1 == keeps_style(style@),
{
    let info_bg = contains_text(style, "var(--b3-card-info-background)");
    let success_bg = contains_text(style, "var(--b3-card-success-background)");
    let warning_bg = contains_text(style, "var(--b3-card-warning-background)");
    let error_bg = contains_text(style, "var(--b3-card-error-background)");
    let background = contains_text(style, "background-color:") || contains_text(
        style,
        "background-color=",
    ) || contains_text(style, "background:") || contains_text(style, "--b3-parent-background");
    let base: &str = if info_bg && contains_text(style, "var(--b3-card-info-color)") {
        "info-box"
    } else if success_bg && contains_text(style, "var(--b3-card-success-color)") {
        "success-box"
    } else if warning_bg && contains_text(style, "var(--b3-card-warning-color)") {
        "warning-box"
    } else if error_bg && contains_text(style, "var(--b3-card-error-color)") {
        "error-box"
    } else if background {
        "custom-box"
    } else {
        return (None, false);
    };
    let keep = same_text(base, "custom-box");
    let mut class = String::new();
    if is_inline {
        class.append("inline-");
    }
    class.append(base);
    (Some(class), keep)
}

} // verus!
