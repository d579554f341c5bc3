use tant::cache::{
    compute_row_hash, compute_runs, resolve_bg, resolve_fg, CellColor, CellData, Rgb, RowCache,
};

fn cell(text: &str, fg: CellColor, bg: CellColor) -> CellData {
    CellData { text: text.to_string(), fg, bg }
}

fn sample_row() -> Vec<CellData> {
    vec![
        cell("a", CellColor::Default, CellColor::Default),
        cell("b", CellColor::Default, CellColor::Default),
        cell("c", CellColor::Idx(1), CellColor::Default),
    ]
}

#[test]
fn runs_merge_equal_styles() {
    let row = sample_row();
    let runs = compute_runs(&row);
    assert_eq!(runs.len(), 2);
    assert_eq!(runs[0].text, "ab");
    assert_eq!(runs[0].start_col, 0);
    assert_eq!(runs[0].width_cols, 2);
    assert_eq!(runs[1].text, "c");
    assert_eq!(runs[1].start_col, 2);
    assert_eq!(runs[1].width_cols, 1);
}

#[test]
fn default_foreground_merges_with_matching_index() {
    // index 7 resolves to the same gray as the default foreground
    let row = vec![
        cell("x", CellColor::Default, CellColor::Idx(0)),
        cell("y", CellColor::Idx(7), CellColor::Idx(0)),
    ];
    let runs = compute_runs(&row);
    assert_eq!(runs.len(), 1);
    assert_eq!(runs[0].text, "xy");
}

#[test]
fn default_background_is_fixed_theme_color() {
    assert_eq!(resolve_bg(CellColor::Default), Rgb { r: 150, g: 150, b: 150 });
    assert_eq!(resolve_fg(CellColor::Default), Rgb { r: 900, g: 900, b: 900 });
    assert_eq!(resolve_fg(CellColor::Idx(1)), Rgb { r: 800, g: 0, b: 0 });
    assert_eq!(resolve_fg(CellColor::Rgb(255, 0, 0)), Rgb { r: 1000, g: 0, b: 0 });
    // the channel scale keeps the 0.8 coincidence: 204/255 == 0.8
    assert_eq!(resolve_fg(CellColor::Rgb(204, 0, 0)), Rgb { r: 800, g: 0, b: 0 });
}

#[test]
fn unchanged_row_is_served_from_cache() {
    let mut cache = RowCache::new();
    let row = sample_row();
    let (runs1, cached1) = cache.lookup(1, 2, 3, &row);
    assert!(!cached1);
    let (runs2, cached2) = cache.lookup(1, 2, 3, &row);
    assert!(cached2);
    assert_eq!(runs1.len(), runs2.len());
    for (a, b) in runs1.iter().zip(runs2.iter()) {
        assert_eq!(a.text, b.text);
        assert_eq!(a.fg, b.fg);
        assert_eq!(a.bg, b.bg);
        assert_eq!(a.start_col, b.start_col);
        assert_eq!(a.width_cols, b.width_cols);
    }
    // and it is pixel-identical to a forced recomputation
    let forced = compute_runs(&row);
    assert_eq!(runs2.len(), forced.len());
    for (a, b) in runs2.iter().zip(forced.iter()) {
        assert_eq!(a.text, b.text);
        assert_eq!(a.fg, b.fg);
    }
}

#[test]
fn changed_row_recomputes() {
    let mut cache = RowCache::new();
    let row = sample_row();
    let (_r1, cached1) = cache.lookup(0, 0, 0, &row);
    assert!(!cached1);
    let mut changed = sample_row();
    changed[1].text = "B".to_string();
    let (r2, cached2) = cache.lookup(0, 0, 0, &changed);
    assert!(!cached2);
    assert_eq!(r2[0].text, "aB");
    // hashes of different rows differ here
    assert_ne!(compute_row_hash(&row), compute_row_hash(&changed));
    assert_eq!(compute_row_hash(&row), compute_row_hash(&sample_row()));
}

#[test]
fn purge_removes_only_that_pane() {
    let mut cache = RowCache::new();
    let row = sample_row();
    cache.lookup(1, 1, 0, &row);
    cache.lookup(1, 2, 0, &row);
    cache.lookup(2, 1, 0, &row);
    assert_eq!(cache.entries.len(), 3);
    cache.purge_pane(1, 1);
    assert_eq!(cache.entries.len(), 2);
    for e in cache.entries.iter() {
        assert!(!(e.tab_id == 1 && e.pane_id == 1));
    }
    cache.invalidate_all();
    assert_eq!(cache.entries.len(), 0);
}
