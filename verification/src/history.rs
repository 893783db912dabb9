use vstd::prelude::*;

verus! {

/// A point of a battery's charge history: a time and a charge level, where
/// the level is `None` for a gap in the record.
#[derive(Clone, Copy, Debug)]
pub struct HistoryPoint<T> {
    pub x: T,
    pub y: Option<T>,
}

/// The two series drawn for a battery's history: the recorded levels, newest
/// first and ending with the present level at time zero, and the dashed lines
/// that bridge the gaps of the record.
pub struct HistorySeries<T> {
    pub samples: Vec<HistoryPoint<T>>,
    pub gaps: Vec<HistoryPoint<T>>,
}

/// The recorded levels as drawn: all but the newest record, newest first
/// (the single record, when there is only one), then the present level.
pub open spec fn samples_spec<T>(h: Seq<HistoryPoint<T>>, percentage: Option<T>, zero: T) -> Seq<
    HistoryPoint<T>,
> {
    let body = if h.len() <= 1 {
        h
    } else {
        h.subrange(0, h.len() - 1).reverse()
    };
    body.push(HistoryPoint { x: zero, y: percentage })
}

/// The bridge over the record at `j + 1`, when it is a gap: from the record
/// before it to the record after it, then a break.
pub open spec fn window_gap<T>(h: Seq<HistoryPoint<T>>, j: int) -> Seq<HistoryPoint<T>> {
    if h[j + 1].y is None {
        seq![h[j], h[j + 2], HistoryPoint { x: h[j + 2].x, y: None }]
    } else {
        Seq::empty()
    }
}

/// The bridges over the gaps after record `k` (each gap with a record on
/// both sides), the newest first.
pub open spec fn gaps_from<T>(h: Seq<HistoryPoint<T>>, k: int) -> Seq<HistoryPoint<T>>
    decreases h.len() - k,
{
    if k < 0 || k + 2 >= h.len() {
        Seq::empty()
    } else {
        gaps_from(h, k + 1) + window_gap(h, k)
    }
}

/// The newest record that has a level, among the last two: the newest, or,
/// when that is a gap, the one before it (`None` when there is none).
pub open spec fn newest_known<T>(h: Seq<HistoryPoint<T>>) -> Option<HistoryPoint<T>> {
    if h.len() == 0 {
        None
    } else if h[h.len() - 1].y is Some {
        Some(h[h.len() - 1])
    } else if h.len() >= 2 {
        Some(h[h.len() - 2])
    } else {
        None
    }
}

/// The line from the end of the drawn period to the newest record, then a
/// break.
pub open spec fn head_spec<T>(h: Seq<HistoryPoint<T>>, total_secs: T) -> Seq<HistoryPoint<T>> {
    match newest_known(h) {
        Some(p) => seq![
            HistoryPoint { x: total_secs, y: p.y },
            HistoryPoint { x: p.x, y: p.y },
            HistoryPoint { x: p.x, y: None },
        ],
        None => Seq::empty(),
    }
}

/// The series for a battery history whose records run from oldest to newest.
/// A history of a single gap draws nothing (`None`).
pub fn update_history<T: Copy>(
    history: &Vec<HistoryPoint<T>>,
    percentage: Option<T>,
    total_secs: T,
    zero: T,
) -> (r: Option<HistorySeries<T>>)
    ensures
        history@.len() == 1 && history@[0].y is None ==> r is None,
        !(history@.len() == 1 && history@[0].y is None) ==> (r matches Some(s) && s.samples@
            == samples_spec(history@, percentage, zero) && s.gaps@ == head_spec(history@, total_secs)
            + gaps_from(history@, 0)),
{
    let n = history.len();
    let ghost h = history@;
    let mut gaps: Vec<HistoryPoint<T>> = Vec::new();
    if n > 0 {
        let mut first = history[n - 1];
        if first.y.is_none() {
            if n >= 2 {
                first = history[n - 2];
            } else {
                return None;
            }
        }
        gaps.push(HistoryPoint { x: total_secs, y: first.y });
        gaps.push(HistoryPoint { x: first.x, y: first.y });
        gaps.push(HistoryPoint { x: first.x, y: None });
    }
    assert(gaps@ =~= head_spec(h, total_secs));
    let mut samples: Vec<HistoryPoint<T>> = Vec::new();
    if n >= 2 {
        let mut k: usize = n - 2;
        assert(samples@ =~= h.subrange(k + 1, n - 1).reverse());
        assert(gaps_from(h, k as int) =~= Seq::<HistoryPoint<T>>::empty());
        assert(gaps@ =~= head_spec(h, total_secs) + gaps_from(h, k as int));
        while k > 0
            invariant
                n == h.len(),
                h == history@,
                n >= 2,
                k <= n - 2,
                gaps@ == head_spec(h, total_secs) + gaps_from(h, k as int),
                samples@ == h.subrange(k + 1, n - 1).reverse(),
            decreases k,
        {
            k = k - 1;
            let before = history[k];
            let middle = history[k + 1];
            let after = history[k + 2];
            let ghost old_gaps = gaps@;
            if middle.y.is_none() {
                gaps.push(HistoryPoint { x: before.x, y: before.y });
                gaps.push(HistoryPoint { x: after.x, y: after.y });
                gaps.push(HistoryPoint { x: after.x, y: None });
            }
            assert(gaps@ =~= old_gaps + window_gap(h, k as int));
            assert(gaps_from(h, k as int) == gaps_from(h, k + 1) + window_gap(h, k as int));
            assert(head_spec(h, total_secs) + gaps_from(h, k + 1) + window_gap(h, k as int)
                =~= head_spec(h, total_secs) + (gaps_from(h, k + 1) + window_gap(h, k as int)));
            samples.push(middle);
            assert(samples@ =~= h.subrange(k + 1, n - 1).reverse());
        }
        samples.push(history[0]);
        assert(samples@ =~= h.subrange(0, n - 1).reverse());
    } else if n == 1 {
        samples.push(history[0]);
        assert(samples@ =~= h);
        assert(gaps_from(h, 0) =~= Seq::<HistoryPoint<T>>::empty());
        assert(gaps@ =~= head_spec(h, total_secs) + gaps_from(h, 0));
    } else {
        assert(samples@ =~= h);
        assert(gaps_from(h, 0) =~= Seq::<HistoryPoint<T>>::empty());
        assert(gaps@ =~= head_spec(h, total_secs) + gaps_from(h, 0));
    }
    samples.push(HistoryPoint { x: zero, y: percentage });
    Some(HistorySeries { samples, gaps })
}

} // verus!
