use guitar::heatmap::{
    build_heatmap_from_counts_for_day, bucket_for_day, bucket_seconds, counts_from_commit_seconds_for_day, empty_heatmap, heatmap_cell, weekday_for_age,
    DateBucket, HeatmapCell, HeatmapCounts,
};

#[test]
fn days_fall_into_buckets() {
    assert_eq!(bucket_for_day(100, Some(100)), DateBucket::Count(0));
    assert_eq!(bucket_for_day(100, Some(101)), DateBucket::Future);
    assert_eq!(bucket_for_day(500, Some(500 - 370)), DateBucket::Count(370));
    assert_eq!(bucket_for_day(500, Some(500 - 371)), DateBucket::BeforeWindow);
    assert_eq!(bucket_for_day(500, None), DateBucket::Future);
    assert_eq!(bucket_seconds(19_000, 19_000 * 86_400 + 5), DateBucket::Count(0));
    assert_eq!(bucket_seconds(19_000, 19_000 * 86_400 - 1), DateBucket::Count(1));
}

#[test]
fn counting_stops_at_the_first_commit_before_the_window() {
    let today: i64 = 19_000;
    let day = |d: i64| d * 86_400 + 60;
    let seconds = vec![day(today + 1), day(today), day(today), day(today - 1), day(today - 400), day(today)];
    let counts = counts_from_commit_seconds_for_day(&seconds, today);
    assert_eq!(counts[0], 2);
    assert_eq!(counts[1], 1);
    assert_eq!(counts.iter().sum::<usize>(), 3);
}

#[test]
fn cells_put_today_in_the_last_week() {
    assert_eq!(weekday_for_age(2, 3), 6);
    assert_eq!(heatmap_cell(2, 0), Some(HeatmapCell { day: 2, week: 52 }));
    assert_eq!(heatmap_cell(2, 2), Some(HeatmapCell { day: 0, week: 52 }));
    assert_eq!(heatmap_cell(2, 3), Some(HeatmapCell { day: 6, week: 51 }));
    assert_eq!(heatmap_cell(6, 370), Some(HeatmapCell { day: 0, week: 0 }));
    assert_eq!(heatmap_cell(6, 371), None);
    assert_eq!(heatmap_cell(0, 364), Some(HeatmapCell { day: 0, week: 0 }));
}

#[test]
fn grid_places_each_count_in_its_cell() {
    let mut counts = [0usize; 371];
    counts[0] = 5;
    counts[3] = 7;
    let grid = build_heatmap_from_counts_for_day(counts, 2);
    assert_eq!(grid[2][52], 5);
    assert_eq!(grid[6][51], 7);
    assert_eq!(grid.iter().flatten().sum::<usize>(), 12);
    assert_eq!(empty_heatmap(), [[0usize; 53]; 7]);
}

#[test]
fn heatmap_counts_collect_commits_of_the_window() {
    let mut counts = HeatmapCounts::for_day(19_000, 3);
    counts.add_commit_seconds(19_000 * 86_400);
    counts.add_commit_seconds(18_999 * 86_400 + 10);
    counts.add_commit_seconds(19_001 * 86_400);
    counts.add_commit_seconds(10);
    assert_eq!(counts.counts[0], 1);
    assert_eq!(counts.counts[1], 1);
    let grid = counts.build();
    assert_eq!(grid[3][52], 1);
    assert_eq!(grid[2][52], 1);
}
