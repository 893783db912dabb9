use missioncenter::history::{update_history, HistoryPoint};

const TOTAL: f32 = 604800.0;

fn p(x: f32, y: Option<f32>) -> HistoryPoint<f32> {
    HistoryPoint { x, y }
}

fn pairs(v: &[HistoryPoint<f32>]) -> Vec<(f32, Option<f32>)> {
    v.iter().map(|q| (q.x, q.y)).collect()
}

#[test]
fn history_samples_newest_first_with_present_level() {
    let h = vec![p(100.0, Some(0.5)), p(80.0, None), p(60.0, Some(0.7)), p(40.0, Some(0.8))];
    let s = update_history(&h, Some(0.9), TOTAL, 0.0).unwrap();
    assert_eq!(
        pairs(&s.samples),
        vec![(60.0, Some(0.7)), (80.0, None), (100.0, Some(0.5)), (0.0, Some(0.9))]
    );
    assert_eq!(
        pairs(&s.gaps),
        vec![
            (TOTAL, Some(0.8)),
            (40.0, Some(0.8)),
            (40.0, None),
            (100.0, Some(0.5)),
            (60.0, Some(0.7)),
            (60.0, None),
        ]
    );
}

#[test]
fn history_bridges_gaps_newest_first() {
    let h = vec![
        p(9.0, Some(0.1)),
        p(8.0, None),
        p(7.0, Some(0.2)),
        p(6.0, None),
        p(5.0, Some(0.3)),
        p(4.0, Some(0.4)),
    ];
    let s = update_history(&h, None, TOTAL, 0.0).unwrap();
    assert_eq!(
        pairs(&s.gaps),
        vec![
            (TOTAL, Some(0.4)),
            (4.0, Some(0.4)),
            (4.0, None),
            (7.0, Some(0.2)),
            (5.0, Some(0.3)),
            (5.0, None),
            (9.0, Some(0.1)),
            (7.0, Some(0.2)),
            (7.0, None),
        ]
    );
    assert_eq!(s.samples.len(), 6);
    assert_eq!(pairs(&s.samples)[5], (0.0, None));
}

#[test]
fn history_newest_gap_uses_the_record_before() {
    let h = vec![p(10.0, Some(0.4)), p(5.0, None)];
    let s = update_history(&h, Some(0.5), TOTAL, 0.0).unwrap();
    assert_eq!(pairs(&s.gaps), vec![(TOTAL, Some(0.4)), (10.0, Some(0.4)), (10.0, None)]);
    assert_eq!(pairs(&s.samples), vec![(10.0, Some(0.4)), (0.0, Some(0.5))]);
}

#[test]
fn history_edge_cases() {
    assert!(update_history(&vec![p(5.0, None)], Some(0.5), TOTAL, 0.0).is_none());
    let one = update_history(&vec![p(5.0, Some(0.3))], Some(0.5), TOTAL, 0.0).unwrap();
    assert_eq!(pairs(&one.samples), vec![(5.0, Some(0.3)), (0.0, Some(0.5))]);
    assert_eq!(pairs(&one.gaps), vec![(TOTAL, Some(0.3)), (5.0, Some(0.3)), (5.0, None)]);
    let none = update_history(&vec![], Some(0.5), TOTAL, 0.0).unwrap();
    assert_eq!(pairs(&none.samples), vec![(0.0, Some(0.5))]);
    assert!(none.gaps.is_empty());
}
