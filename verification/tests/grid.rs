use ferail_gpui::grid::{
    clamp_icon_size, folder_icon_bucket, icon_size, icon_sizes, thumb_bucket, thumb_fit, IconSize,
    ObjectFit, ThumbFit, ThumbFitMode, ViewMode, DEFAULT_ICON_SIZE, MAX_ICON_SIZE, MIN_ICON_SIZE,
};

const LANDSCAPE: (u32, u32) = (1600, 900);
const PORTRAIT: (u32, u32) = (900, 1600);
const SQUARE: (u32, u32) = (512, 512);

fn fit(mode: ThumbFit, (w, h): (u32, u32)) -> &'static str {
    match mode.object_fit(w, h) {
        ObjectFit::Fill => "fill",
        ObjectFit::Contain => "contain",
        ObjectFit::Cover => "cover",
    }
}

#[test]
fn best_fit_never_crops_either_orientation() {
    assert_eq!(fit(ThumbFit::Best, LANDSCAPE), "contain");
    assert_eq!(fit(ThumbFit::Best, PORTRAIT), "contain");
}

#[test]
fn fill_always_covers_the_slot() {
    assert_eq!(fit(ThumbFit::Fill, LANDSCAPE), "cover");
    assert_eq!(fit(ThumbFit::Fill, PORTRAIT), "cover");
}

#[test]
fn fit_width_letterboxes_landscape_and_crops_portrait() {
    assert_eq!(fit(ThumbFit::Width, LANDSCAPE), "contain");
    assert_eq!(fit(ThumbFit::Width, PORTRAIT), "cover");
}

#[test]
fn fit_height_letterboxes_portrait_and_crops_landscape() {
    assert_eq!(fit(ThumbFit::Height, PORTRAIT), "contain");
    assert_eq!(fit(ThumbFit::Height, LANDSCAPE), "cover");
}

#[test]
fn a_square_image_is_untouched_by_every_mode_but_stretch() {
    for mode in [ThumbFit::Best, ThumbFit::Fill, ThumbFit::Width, ThumbFit::Height] {
        assert!(
            matches!(fit(mode, SQUARE), "contain" | "cover"),
            "{mode:?} distorted a square image"
        );
    }
    assert_eq!(fit(ThumbFit::Stretch, SQUARE), "fill");
}

#[test]
fn a_zero_sized_frame_falls_back_to_fitting_inside() {
    for mode in [
        ThumbFit::Best,
        ThumbFit::Fill,
        ThumbFit::Width,
        ThumbFit::Height,
        ThumbFit::Stretch,
    ] {
        assert_eq!(fit(mode, (0, 0)), "contain");
        assert_eq!(fit(mode, (1024, 0)), "contain");
    }
}

#[test]
fn only_best_fit_is_pure_shrink_to_fit() {
    assert!(!ThumbFit::Best.magnifies());
    for mode in [ThumbFit::Fill, ThumbFit::Width, ThumbFit::Height, ThumbFit::Stretch] {
        assert!(mode.magnifies(), "{mode:?} should ask for a bigger bucket");
    }
}

#[test]
fn magnifying_modes_step_up_one_bucket_where_there_is_one() {
    assert_eq!(thumb_bucket(64, ThumbFit::Best), 128);
    assert_eq!(thumb_bucket(64, ThumbFit::Fill), 256);
    assert_eq!(thumb_bucket(128, ThumbFit::Best), 256);
    assert_eq!(thumb_bucket(128, ThumbFit::Fill), 512);
    assert_eq!(thumb_bucket(256, ThumbFit::Best), 512);
    assert_eq!(thumb_bucket(256, ThumbFit::Fill), 512);
}

#[test]
fn buckets_stay_a_closed_set_across_the_whole_size_range() {
    for px in MIN_ICON_SIZE..=MAX_ICON_SIZE {
        for mode in [ThumbFit::Best, ThumbFit::Fill] {
            assert!(
                matches!(thumb_bucket(px, mode), 128 | 256 | 512),
                "{px}px/{mode:?} produced an off-ladder bucket"
            );
        }
        assert!(matches!(folder_icon_bucket(px), 128 | 256 | 512));
    }
}

#[test]
fn folder_icons_ignore_the_fit_mode_and_only_grow_past_a_big_slot() {
    assert_eq!(folder_icon_bucket(64), 128);
    assert_eq!(folder_icon_bucket(128), 256);
    assert_eq!(folder_icon_bucket(256), 256);
    assert_eq!(folder_icon_bucket(384), 512);
    assert_eq!(folder_icon_bucket(MAX_ICON_SIZE), 512);
}

#[test]
fn the_stepper_stops_span_the_sliders_whole_range() {
    let sizes = icon_sizes();
    assert_eq!(sizes[0], MIN_ICON_SIZE);
    assert_eq!(sizes[sizes.len() - 1], MAX_ICON_SIZE);
    assert!(sizes.windows(2).all(|w| w[0] < w[1]));
    assert_eq!(clamp_icon_size(DEFAULT_ICON_SIZE), DEFAULT_ICON_SIZE);
    assert_eq!(clamp_icon_size(0), MIN_ICON_SIZE);
    assert_eq!(clamp_icon_size(9999), MAX_ICON_SIZE);
}

#[test]
fn fit_modes_round_trip_through_their_persisted_token() {
    for mode in [
        ThumbFit::Best,
        ThumbFit::Fill,
        ThumbFit::Width,
        ThumbFit::Height,
        ThumbFit::Stretch,
    ] {
        assert_eq!(ThumbFit::from_str(mode.as_str()), mode);
    }
    assert_eq!(ThumbFit::from_str("nonsense"), ThumbFit::Best);
    assert_eq!(ThumbFit::default(), ThumbFit::Best);
}

#[test]
fn view_modes_round_trip_and_default_to_list() {
    for mode in [ViewMode::List, ViewMode::Grid] {
        assert_eq!(ViewMode::from_str(mode.as_str()), mode);
    }
    assert_eq!(ViewMode::persisted_default(None), ViewMode::List);
    assert_eq!(ViewMode::persisted_default(Some("grid")), ViewMode::Grid);
    assert_eq!(ViewMode::persisted_default(Some("tiles")), ViewMode::List);
}

#[test]
fn the_live_icon_size_is_clamped_and_defaults() {
    assert_eq!(icon_size(None), DEFAULT_ICON_SIZE);
    assert_eq!(icon_size(Some(IconSize(1))), MIN_ICON_SIZE);
    assert_eq!(icon_size(Some(IconSize(100_000))), MAX_ICON_SIZE);
    assert_eq!(icon_size(Some(IconSize(200))), 200);
}

#[test]
fn the_live_fit_mode_defaults_to_best() {
    assert_eq!(thumb_fit(None), ThumbFit::Best);
    assert_eq!(thumb_fit(Some(ThumbFitMode(ThumbFit::Height))), ThumbFit::Height);
}
