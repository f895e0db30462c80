use monotabe::detect::PageFraction;
use monotabe::sync::{
    bracket, partition_point, plan_simple_sync, plan_sync, scroll_target, Bracket, DetectedRow,
    PlannedPoint, ScrollTarget, SyncError,
};

fn row(page: u32, anchor: u64, bars: u64) -> DetectedRow {
    DetectedRow { page, anchor: PageFraction { num: anchor, den: 1000 }, bars }
}

#[test]
fn no_rows_means_no_schedule() {
    assert!(matches!(plan_sync(&vec![]), Err(SyncError::NoTabRows)));
    assert!(matches!(plan_simple_sync(&vec![]), Err(SyncError::NoTabRows)));
    assert!(matches!(plan_simple_sync(&vec![b"junk".to_vec()]), Err(SyncError::NoTabRows)));
}

#[test]
fn too_many_bars_are_refused() {
    let rows = vec![row(0, 1, u64::MAX), row(0, 2, 1)];
    assert!(matches!(plan_sync(&rows), Err(SyncError::TooManyBars)));
    let rows = vec![row(0, 1, u64::MAX - 1), row(0, 2, 1)];
    let plan = plan_sync(&rows).ok().unwrap();
    assert_eq!(plan.total_quarter_bars, 4 * u64::MAX as u128);
    assert_eq!(plan.points[3].quarter_bars, 4 * (u64::MAX as u128 - 1) + 3);
}

#[test]
fn rows_share_the_song_by_bars() {
    let rows = vec![row(0, 100, 4), row(0, 300, 2), row(1, 50, 2)];
    let plan = plan_sync(&rows).ok().unwrap();
    assert_eq!(plan.total_quarter_bars, 32);
    let expected = vec![
        PlannedPoint { page: 0, anchor: PageFraction { num: 100, den: 1000 }, quarter_bars: 0 },
        PlannedPoint { page: 0, anchor: PageFraction { num: 100, den: 1000 }, quarter_bars: 12 },
        PlannedPoint { page: 0, anchor: PageFraction { num: 300, den: 1000 }, quarter_bars: 16 },
        PlannedPoint { page: 0, anchor: PageFraction { num: 300, den: 1000 }, quarter_bars: 22 },
        PlannedPoint { page: 1, anchor: PageFraction { num: 50, den: 1000 }, quarter_bars: 24 },
        PlannedPoint { page: 1, anchor: PageFraction { num: 50, den: 1000 }, quarter_bars: 30 },
    ];
    assert_eq!(plan.points, expected);
}

#[test]
fn a_single_row_gives_a_snap_and_a_hold() {
    let plan = plan_sync(&vec![row(2, 7, 3)]).ok().unwrap();
    assert_eq!(plan.points.len(), 2);
    assert_eq!(plan.points[0].quarter_bars, 0);
    assert_eq!(plan.points[1].quarter_bars, 9);
    assert_eq!((plan.points[1].page, plan.points[1].anchor.num), (2, 7));
    assert_eq!(plan.total_quarter_bars, 12);
}

#[test]
fn partition_point_finds_the_first_point_not_due() {
    assert_eq!(partition_point(&vec![]), 0);
    assert_eq!(partition_point(&vec![true, true, false]), 2);
    assert_eq!(partition_point(&vec![false, false]), 0);
    assert_eq!(partition_point(&vec![true, true, true]), 3);
}

#[test]
fn brackets_and_targets() {
    assert_eq!(bracket(&vec![]), Bracket::Empty);
    assert_eq!(bracket(&vec![false, false]), Bracket::BeforeFirst);
    assert_eq!(bracket(&vec![true, true]), Bracket::AfterLast);
    assert_eq!(bracket(&vec![true, false]), Bracket::Between(1));
    let pages = vec![0, 0, 1];
    assert_eq!(scroll_target(&vec![], &vec![]), ScrollTarget::Nowhere);
    assert_eq!(scroll_target(&vec![false, false, false], &pages), ScrollTarget::At(0));
    assert_eq!(scroll_target(&vec![true, false, false], &pages), ScrollTarget::Slide(0));
    assert_eq!(scroll_target(&vec![true, true, false], &pages), ScrollTarget::At(1));
    assert_eq!(scroll_target(&vec![true, true, true], &pages), ScrollTarget::At(2));
}
