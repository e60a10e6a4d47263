use uipilot::aggregate::ViewportPoint;
use uipilot::governor::{RateLimitGovernor, DEFAULT_PAUSE_MS, DEFAULT_PAUSE_THRESHOLD};
use uipilot::overlay::{glyph_rows, grid_ticks, GridOptions};
use uipilot::pool::{offset_point, stagger_delay_ms, ResolveError, SamplePool};
use uipilot::sheets::{cell_range_a1, cell_update_color, column_index_to_letter, dec_digits, sheet_name_of};

#[test]
fn governor_pauses_only_from_the_threshold_on() {
    let mut g = RateLimitGovernor::with_defaults();
    assert_eq!(g.pause_duration_ms(), DEFAULT_PAUSE_MS);
    assert_eq!(DEFAULT_PAUSE_THRESHOLD, 3);
    assert!(!g.should_pause());
    g.record_failure();
    assert!(!g.should_pause());
    g.record_failure();
    assert!(!g.should_pause());
    g.record_failure();
    assert!(g.should_pause());
    g.record_failure();
    assert!(g.should_pause());
}

#[test]
fn governor_success_always_resets() {
    let mut g = RateLimitGovernor::new(2, 1000);
    g.record_failure();
    g.record_failure();
    g.record_failure();
    assert!(g.should_pause());
    g.record_success();
    assert_eq!(g.failures(), 0);
    assert!(!g.should_pause());
    g.record_success();
    assert_eq!(g.failures(), 0);
}

#[test]
fn pool_launches_min_of_target_and_concurrency() {
    let p = SamplePool::new(10, 4);
    assert!(!p.all_done());
    let q = SamplePool::new(2, 4);
    // with target below the concurrency bound, everything is in flight
    let mut q = q;
    assert!(!q.on_sample_done(Some(ViewportPoint { x: 1, y: 1, double: false })));
    assert!(!q.on_sample_done(Some(ViewportPoint { x: 3, y: 3, double: false })));
    assert!(q.all_done());
    let r = q.finish().unwrap();
    assert_eq!((r.x, r.y), (2, 2));
    drop(p);
}

#[test]
fn pool_relaunches_until_target_reached() {
    let mut p = SamplePool::new(3, 1);
    // one in flight; each completion below the target launches another
    assert!(p.on_sample_done(None));
    assert!(p.on_sample_done(Some(ViewportPoint { x: 5, y: 7, double: true })));
    assert!(!p.on_sample_done(None));
    assert!(p.all_done());
    let r = p.finish().unwrap();
    assert_eq!((r.x, r.y, r.double), (5, 7, true));
}

#[test]
fn pool_with_no_successes_reports_all_failed() {
    let mut p = SamplePool::new(2, 2);
    assert!(!p.on_sample_done(None));
    assert!(!p.on_sample_done(None));
    assert!(p.all_done());
    assert_eq!(p.finish(), Err(ResolveError::AllSamplesFailed));
    assert_eq!(p.successes(), 0);
}

#[test]
fn stagger_smears_by_task_index_modulo_eight() {
    assert_eq!(stagger_delay_ms(120, 0), 120);
    assert_eq!(stagger_delay_ms(120, 3), 480);
    assert_eq!(stagger_delay_ms(120, 7), 960);
    assert_eq!(stagger_delay_ms(120, 8), 120);
    assert_eq!(stagger_delay_ms(0, 5), 0);
}

#[test]
fn calibration_offset_saturates() {
    let p = ViewportPoint { x: 10, y: -10, double: false };
    let r = offset_point(p, 5, -5);
    assert_eq!((r.x, r.y), (15, -15));
    let far = ViewportPoint { x: i32::MAX - 1, y: i32::MIN + 1, double: true };
    let s = offset_point(far, 10, -10);
    assert_eq!((s.x, s.y, s.double), (i32::MAX, i32::MIN, true));
}

#[test]
fn column_letters_roll_over_like_spreadsheets() {
    let as_string = |v: Vec<char>| v.into_iter().collect::<String>();
    assert_eq!(as_string(column_index_to_letter(1)), "A");
    assert_eq!(as_string(column_index_to_letter(26)), "Z");
    assert_eq!(as_string(column_index_to_letter(27)), "AA");
    assert_eq!(as_string(column_index_to_letter(52)), "AZ");
    assert_eq!(as_string(column_index_to_letter(53)), "BA");
    assert_eq!(as_string(column_index_to_letter(702)), "ZZ");
    assert_eq!(as_string(column_index_to_letter(703)), "AAA");
    assert_eq!(as_string(column_index_to_letter(0)), "");
}

#[test]
fn cell_ranges_are_a1_notation() {
    let as_string = |v: Vec<char>| v.into_iter().collect::<String>();
    assert_eq!(as_string(cell_range_a1("Sheet1", 19, 7)), "Sheet1!S7");
    assert_eq!(as_string(cell_range_a1("Clients", 27, 120)), "Clients!AA120");
    assert_eq!(as_string(dec_digits(0)), "0");
    assert_eq!(as_string(dec_digits(907)), "907");
}

#[test]
fn sheet_name_is_the_part_before_the_bang() {
    assert_eq!(sheet_name_of("Sheet1!A1:T"), "Sheet1");
    assert_eq!(sheet_name_of("Clients"), "Clients");
}

#[test]
fn update_colors_are_traffic_lights() {
    assert_eq!(cell_update_color(true, false), (0, 255, 0));
    assert_eq!(cell_update_color(false, false), (255, 0, 0));
    assert_eq!(cell_update_color(true, true), (255, 255, 0));
    assert_eq!(cell_update_color(false, true), (255, 255, 0));
}

#[test]
fn grid_ticks_step_through_the_extent() {
    assert_eq!(grid_ticks(100, 50), vec![0, 50, 100]);
    assert_eq!(grid_ticks(120, 50), vec![0, 50, 100]);
    assert_eq!(grid_ticks(49, 50), vec![0]);
    assert_eq!(grid_ticks(500, 0), vec![0]);
}

#[test]
fn glyphs_cover_digits_axes_and_equals() {
    for ch in "0123456789xy=".chars() {
        assert!(glyph_rows(ch).is_some(), "{ch} should have a glyph");
    }
    assert!(glyph_rows('q').is_none());
    assert!(glyph_rows(' ').is_none());
    let opts = GridOptions::defaults();
    assert_eq!((opts.step, opts.label_every, opts.font_scale, opts.save_debug), (50, 2, 2, false));
}
