//! Icon (grid) view for the file list: the view-mode and icon-size state,
//! its persisted tokens, and the thumbnail fetch-size rules.

use vstd::prelude::*;

use crate::strings::{chars_eq_str, chars_of};

verus! {

/// Key context for the icon grid.
pub const GRID_CONTEXT: &'static str = "FerailGrid";

/// Which renderer the file pane uses for a tab.
#[derive(Clone, Copy, PartialEq, Eq, Debug, Structural)]
pub enum ViewMode {
    /// The virtualized table (Name / Size / Format / Modified columns).
    List,
    /// The icon grid.
    Grid,
}

/// The persisted token of a view mode.
pub open spec fn view_mode_token(m: ViewMode) -> Seq<char> {
    match m {
        ViewMode::List => "list"@,
        ViewMode::Grid => "grid"@,
    }
}

/// The view mode a persisted token stands for: anything but `grid` is the
/// list.
pub open spec fn view_mode_of(s: Seq<char>) -> ViewMode {
    if s == "grid"@ {
        ViewMode::Grid
    } else {
        ViewMode::List
    }
}

impl ViewMode {
    pub fn as_str(self) -> (r: &'static str)
        ensures
            r@ == view_mode_token(self),
    {
        match self {
            ViewMode::List => "list",
            ViewMode::Grid => "grid",
        }
    }

    /// Infallible token parse.
    pub fn from_str(s: &str) -> (r: ViewMode)
        ensures
            r == view_mode_of(s@),
    {
        let v = chars_of(s);
        if chars_eq_str(&v, "grid") {
            ViewMode::Grid
        } else {
            ViewMode::List
        }
    }

    /// The default applied to newly opened tabs, from the persisted
    /// setting; `list` when nothing was saved.
    pub fn persisted_default(saved: Option<&str>) -> (r: ViewMode)
        ensures
            r == match saved {
                Some(s) => view_mode_of(s@),
                None => ViewMode::List,
            },
    {
        match saved {
            Some(s) => ViewMode::from_str(s),
            None => {
                proof {
                    lemma_view_mode_round_trip(ViewMode::List);
                }
                ViewMode::from_str("list")
            },
        }
    }
}

/// Every view mode survives being written as its token and read back.
pub proof fn lemma_view_mode_round_trip(m: ViewMode)
    ensures
        view_mode_of(view_mode_token(m)) == m,
{
    reveal_strlit("list");
    reveal_strlit("grid");
    assert("list"@ =~= seq!['l', 'i', 's', 't']);
    assert("grid"@ =~= seq!['g', 'r', 'i', 'd']);
}

/// Smallest grid icon size any control may reach (logical px).
pub const MIN_ICON_SIZE: u32 = 32;
/// Largest grid icon size any control may reach (logical px).
pub const MAX_ICON_SIZE: u32 = 512;
/// Default grid icon size when the user hasn't chosen one.
pub const DEFAULT_ICON_SIZE: u32 = 128;
/// Smallest icon size at which the crowding-prone per-cell adornments
/// (tag dots, favorite star) are painted.
pub const ADORN_MIN_ICON: u32 = 96;

/// Display sizes the −/＋ stepper snaps to, small to large, spanning the
/// whole slider range.
pub fn icon_sizes() -> (r: [u32; 9])
    ensures
        r@ == seq![32u32, 48, 64, 96, 128, 192, 256, 384, 512],
        r@[0] == MIN_ICON_SIZE,
        r@[8] == MAX_ICON_SIZE,
        forall|i: int, j: int| 0 <= i < j < 9 ==> r@[i] < r@[j],
{
    let r = [32u32, 48, 64, 96, 128, 192, 256, 384, 512];
    assert(r@ =~= seq![32u32, 48, 64, 96, 128, 192, 256, 384, 512]);
    r
}

/// Clamp an arbitrary value into the supported icon-size range.
pub fn clamp_icon_size(px: u32) -> (r: u32)
    ensures
        r == if px < MIN_ICON_SIZE { MIN_ICON_SIZE } else if px > MAX_ICON_SIZE { MAX_ICON_SIZE } else { px },
{
    if px < MIN_ICON_SIZE {
        MIN_ICON_SIZE
    } else if px > MAX_ICON_SIZE {
        MAX_ICON_SIZE
    } else {
        px
    }
}

/// The process-wide live grid icon size in display pixels, as the
/// settings store seeded it or the toolbar size control last set it.
#[derive(Clone, Copy, PartialEq, Eq, Debug, Structural)]
pub struct IconSize(pub u32);

/// The live grid icon size: the stored value clamped into the supported
/// range, or [`DEFAULT_ICON_SIZE`] when none has been stored yet.
pub fn icon_size(stored: Option<IconSize>) -> (r: u32)
    ensures
        r == match stored {
            Some(s) => if s.0 < MIN_ICON_SIZE {
                MIN_ICON_SIZE
            } else if s.0 > MAX_ICON_SIZE {
                MAX_ICON_SIZE
            } else {
                s.0
            },
            None => DEFAULT_ICON_SIZE,
        },
        MIN_ICON_SIZE <= r <= MAX_ICON_SIZE,
{
    match stored {
        Some(s) => clamp_icon_size(s.0),
        None => DEFAULT_ICON_SIZE,
    }
}

/// How an image is laid into its box: fitted inside, covering it, or
/// stretched to it.
#[derive(Clone, Copy, PartialEq, Eq, Debug, Structural)]
pub enum ObjectFit {
    Contain,
    Cover,
    Fill,
}

/// How a thumbnail is laid into the square icon slot in grid view.
#[derive(Clone, Copy, PartialEq, Eq, Debug, Structural)]
pub enum ThumbFit {
    /// Scale to fit entirely inside the slot, letterboxing the short axis.
    Best,
    /// Scale until the slot is completely covered, cropping the overflow.
    Fill,
    /// Scale so the image's width matches the slot.
    Width,
    /// Scale so the image's height matches the slot.
    Height,
    /// Stretch both axes to fill the slot exactly.
    Stretch,
}

impl Default for ThumbFit {
    fn default() -> (r: ThumbFit)
        ensures
            r == ThumbFit::Best,
    {
        ThumbFit::Best
    }
}

/// The process-wide live thumbnail fit mode.
#[derive(Clone, Copy, PartialEq, Eq, Debug, Structural)]
pub struct ThumbFitMode(pub ThumbFit);

/// The live thumbnail fit mode, [`ThumbFit::Best`] when none is stored.
pub fn thumb_fit(stored: Option<ThumbFitMode>) -> (r: ThumbFit)
    ensures
        r == match stored {
            Some(m) => m.0,
            None => ThumbFit::Best,
        },
{
    match stored {
        Some(m) => m.0,
        None => ThumbFit::default(),
    }
}

/// The persisted token of a fit mode.
pub open spec fn fit_token(m: ThumbFit) -> Seq<char> {
    match m {
        ThumbFit::Best => "best"@,
        ThumbFit::Fill => "fill"@,
        ThumbFit::Width => "width"@,
        ThumbFit::Height => "height"@,
        ThumbFit::Stretch => "stretch"@,
    }
}

/// The fit mode a persisted token stands for: an unknown token is Best fit.
pub open spec fn fit_of(s: Seq<char>) -> ThumbFit {
    if s == "fill"@ {
        ThumbFit::Fill
    } else if s == "width"@ {
        ThumbFit::Width
    } else if s == "height"@ {
        ThumbFit::Height
    } else if s == "stretch"@ {
        ThumbFit::Stretch
    } else {
        ThumbFit::Best
    }
}

/// The object fit that realises a mode for an image of the given size.
pub open spec fn object_fit_spec(m: ThumbFit, w: u32, h: u32) -> ObjectFit {
    if w == 0 || h == 0 {
        ObjectFit::Contain
    } else {
        match m {
            ThumbFit::Best => ObjectFit::Contain,
            ThumbFit::Fill => ObjectFit::Cover,
            ThumbFit::Stretch => ObjectFit::Fill,
            ThumbFit::Width => if w >= h {
                ObjectFit::Contain
            } else {
                ObjectFit::Cover
            },
            ThumbFit::Height => if h >= w {
                ObjectFit::Contain
            } else {
                ObjectFit::Cover
            },
        }
    }
}

impl ThumbFit {
    pub fn as_str(self) -> (r: &'static str)
        ensures
            r@ == fit_token(self),
    {
        match self {
            ThumbFit::Best => "best",
            ThumbFit::Fill => "fill",
            ThumbFit::Width => "width",
            ThumbFit::Height => "height",
            ThumbFit::Stretch => "stretch",
        }
    }

    /// Infallible token parse.
    pub fn from_str(s: &str) -> (r: ThumbFit)
        ensures
            r == fit_of(s@),
    {
        let v = chars_of(s);
        if chars_eq_str(&v, "fill") {
            ThumbFit::Fill
        } else if chars_eq_str(&v, "width") {
            ThumbFit::Width
        } else if chars_eq_str(&v, "height") {
            ThumbFit::Height
        } else if chars_eq_str(&v, "stretch") {
            ThumbFit::Stretch
        } else {
            ThumbFit::Best
        }
    }

    /// Whether this mode can scale an image beyond what Best fit would, and
    /// so needs a larger source bucket to stay crisp.
    pub fn magnifies(self) -> (r: bool)
        ensures
            r == (self != ThumbFit::Best),
    {
        !matches!(self, ThumbFit::Best)
    }

    /// The object fit that realises this mode for an image of the given
    /// pixel size. On a square slot, matching the width is Contain for a
    /// landscape image and Cover for a portrait one; a degenerate size has
    /// no orientation and is fitted inside.
    pub fn object_fit(self, img_w: u32, img_h: u32) -> (r: ObjectFit)
        ensures
            r == object_fit_spec(self, img_w, img_h),
    {
        if img_w == 0 || img_h == 0 {
            return ObjectFit::Contain;
        }
        match self {
            ThumbFit::Best => ObjectFit::Contain,
            ThumbFit::Fill => ObjectFit::Cover,
            ThumbFit::Stretch => ObjectFit::Fill,
            ThumbFit::Width => {
                if img_w >= img_h {
                    ObjectFit::Contain
                } else {
                    ObjectFit::Cover
                }
            },
            ThumbFit::Height => {
                if img_h >= img_w {
                    ObjectFit::Contain
                } else {
                    ObjectFit::Cover
                }
            },
        }
    }
}

/// Every fit mode survives being written as its token and read back.
pub proof fn lemma_fit_round_trip(m: ThumbFit)
    ensures
        fit_of(fit_token(m)) == m,
{
    reveal_strlit("best");
    reveal_strlit("fill");
    reveal_strlit("width");
    reveal_strlit("height");
    reveal_strlit("stretch");
    assert("best"@ =~= seq!['b', 'e', 's', 't']);
    assert("fill"@ =~= seq!['f', 'i', 'l', 'l']);
    assert("width"@ =~= seq!['w', 'i', 'd', 't', 'h']);
    assert("height"@ =~= seq!['h', 'e', 'i', 'g', 'h', 't']);
    assert("stretch"@ =~= seq!['s', 't', 'r', 'e', 't', 'c', 'h']);
}

/// A square image fills the square slot whichever mode is chosen: every mode
/// but Stretch picks Contain or Cover, which agree on it, and Stretch fills.
pub proof fn lemma_square_image_is_never_distorted(m: ThumbFit, side: u32)
    requires
        side > 0,
    ensures
        m != ThumbFit::Stretch ==> object_fit_spec(m, side, side) != ObjectFit::Fill,
        object_fit_spec(ThumbFit::Stretch, side, side) == ObjectFit::Fill,
{
}

/// The fetch-size ladder for a display size, before any fit-mode
/// adjustment: about twice the display size, snapped to three buckets.
pub open spec fn ladder_spec(display_px: u32) -> u32 {
    if display_px <= 96 {
        128
    } else if display_px <= 160 {
        256
    } else {
        512
    }
}

/// The physical thumbnail fetch size for a display size under a fit mode.
pub open spec fn thumb_bucket_spec(display_px: u32, fit: ThumbFit) -> u32 {
    let base = ladder_spec(display_px);
    if fit == ThumbFit::Best {
        base
    } else if base == 128 {
        256
    } else {
        512
    }
}

/// The physical fetch size for grid folder icons.
pub open spec fn folder_bucket_spec(display_px: u32) -> u32 {
    if display_px > 256 {
        512
    } else if ladder_spec(display_px) < 256 {
        ladder_spec(display_px)
    } else {
        256
    }
}

fn bucket_ladder(display_px: u32) -> (r: u32)
    ensures
        r == ladder_spec(display_px),
{
    if display_px <= 96 {
        128
    } else if display_px <= 160 {
        256
    } else {
        512
    }
}

/// Physical thumbnail fetch size (longest edge) for a grid display size
/// under a given fit mode. Best fit only ever scales down, so the plain
/// ladder is enough; every other mode magnifies further and steps up one
/// rung where there is one.
pub fn thumb_bucket(display_px: u32, fit: ThumbFit) -> (r: u32)
    ensures
        r == thumb_bucket_spec(display_px, fit),
{
    let base = bucket_ladder(display_px);
    if !fit.magnifies() {
        return base;
    }
    if base == 128 {
        256
    } else if base == 256 {
        512
    } else {
        base
    }
}

/// Physical fetch size for grid folder icons: the fit mode is ignored, and
/// the size stays capped at 256 until the slot is genuinely bigger.
pub fn folder_icon_bucket(display_px: u32) -> (r: u32)
    ensures
        r == folder_bucket_spec(display_px),
{
    if display_px > 256 {
        512
    } else {
        let b = bucket_ladder(display_px);
        if b < 256 {
            b
        } else {
            256
        }
    }
}

/// The thumbnail cache is keyed by path and bucket, so the buckets form a
/// closed set: whatever the display size and mode, only 128, 256 or 512.
pub proof fn lemma_buckets_closed(display_px: u32, fit: ThumbFit)
    ensures
        thumb_bucket_spec(display_px, fit) == 128 || thumb_bucket_spec(display_px, fit) == 256
            || thumb_bucket_spec(display_px, fit) == 512,
        folder_bucket_spec(display_px) == 128 || folder_bucket_spec(display_px) == 256
            || folder_bucket_spec(display_px) == 512,
{
}

/// A magnifying mode never fetches a smaller bucket than Best fit, and
/// steps up exactly one rung below the top.
pub proof fn lemma_magnifying_steps_up(display_px: u32, fit: ThumbFit)
    requires
        fit != ThumbFit::Best,
    ensures
        thumb_bucket_spec(display_px, fit) >= thumb_bucket_spec(display_px, ThumbFit::Best),
        thumb_bucket_spec(display_px, ThumbFit::Best) < 512 ==> thumb_bucket_spec(display_px, fit) == 2
            * thumb_bucket_spec(display_px, ThumbFit::Best),
{
}

} // verus!
