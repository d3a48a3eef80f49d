use vstd::prelude::*;

use crate::geometry::BoundingBox;

verus! {

/// One candidate object: its box, the index of its class in the label set,
/// and the model's confidence in millionths (`1_000_000` is certainty).
#[derive(Clone, Copy, Debug, PartialEq, Eq, Structural)]
pub struct Detection {
    pub bbox: BoundingBox,
    pub class_id: usize,
    pub confidence: u32,
}

/// Minimum class score, in millionths, for a candidate to be kept.
pub const CONFIDENCE_THRESHOLD: i32 = 500_000;

/// Number of leading values of a raw row that describe the box.
pub const BOX_VALUES: usize = 4;

/// Index of the first largest value: a left-to-right scan that only moves on
/// to a strictly greater value.
pub open spec fn first_max(s: Seq<int>) -> int
    decreases s.len(),
{
    if s.len() <= 1 {
        0
    } else {
        let b = first_max(s.drop_last());
        if s.last() > s[b] {
            s.len() - 1
        } else {
            b
        }
    }
}

/// The class scores of a raw row, after its box values.
pub open spec fn class_scores(row: Seq<i32>) -> Seq<int> {
    row.skip(BOX_VALUES as int).map_values(|v: i32| v as int)
}

/// A coordinate of the model's 640-pixel input space, in millionths of a
/// pixel, as millionths of a percent of that space (times 100, over 640),
/// rounded toward zero.
pub open spec fn to_percent(v: int) -> int {
    if v >= 0 {
        v * 5 / 32
    } else {
        -((-v) * 5 / 32)
    }
}

/// The detection that a raw row decodes to, if any: the best class must
/// reach the confidence threshold and have a label.
pub open spec fn decode_row(row: Seq<i32>, n_labels: int) -> Option<Detection> {
    let scores = class_scores(row);
    let c = first_max(scores);
    let p = scores[c];
    if p < CONFIDENCE_THRESHOLD || c >= n_labels {
        None
    } else {
        Some(
            Detection {
                bbox: BoundingBox {
                    xc: to_percent(row[0] as int) as i32,
                    yc: to_percent(row[1] as int) as i32,
                    w: to_percent(row[2] as int) as i32,
                    h: to_percent(row[3] as int) as i32,
                },
                class_id: c as usize,
                confidence: p as u32,
            },
        )
    }
}

/// The detections of all rows that decode to one, in row order.
pub open spec fn decode_rows(rows: Seq<Vec<i32>>, n_labels: int) -> Seq<Detection>
    decreases rows.len(),
{
    if rows.len() == 0 {
        Seq::empty()
    } else {
        let prev = decode_rows(rows.drop_last(), n_labels);
        match decode_row(rows.last()@, n_labels) {
            Some(d) => prev.push(d),
            None => prev,
        }
    }
}

pub open spec fn confidences(s: Seq<Detection>) -> Seq<int> {
    s.map_values(|d: Detection| d.confidence as int)
}

/// The detections of `s` that `b` does not suppress, in order.
pub open spec fn unsuppressed(b: BoundingBox, s: Seq<Detection>) -> Seq<Detection>
    decreases s.len(),
{
    if s.len() == 0 {
        s
    } else {
        let prev = unsuppressed(b, s.drop_last());
        if b.spec_suppresses(s.last().bbox) {
            prev
        } else {
            prev.push(s.last())
        }
    }
}

/// Greedy non-maximum suppression: the first most confident detection
/// survives, it and every detection that it suppresses leave, and the rest
/// go round again.
pub open spec fn nms(s: Seq<Detection>) -> Seq<Detection>
    decreases s.len(),
    via nms_decreases
{
    if s.len() == 0 {
        Seq::empty()
    } else {
        let i = first_max(confidences(s));
        let b = s[i];
        seq![b] + nms(unsuppressed(b.bbox, s.remove(i)))
    }
}

#[via_fn]
proof fn nms_decreases(s: Seq<Detection>) {
    if s.len() != 0 {
        let i = first_max(confidences(s));
        lemma_first_max(confidences(s));
        lemma_unsuppressed_len(s[i].bbox, s.remove(i));
    }
}

proof fn lemma_first_max(s: Seq<int>)
    requires
        s.len() > 0,
    ensures
        0 <= first_max(s) < s.len(),
        forall|j: int| 0 <= j < s.len() ==> #[trigger] s[j] <= s[first_max(s)],
        forall|j: int| 0 <= j < first_max(s) ==> #[trigger] s[j] < s[first_max(s)],
    decreases s.len(),
{
    if s.len() > 1 {
        let t = s.drop_last();
        lemma_first_max(t);
        assert(forall|j: int| 0 <= j < t.len() ==> t[j] == #[trigger] s[j]);
    }
}

proof fn lemma_unsuppressed_len(b: BoundingBox, s: Seq<Detection>)
    ensures
        unsuppressed(b, s).len() <= s.len(),
    decreases s.len(),
{
    if s.len() > 0 {
        lemma_unsuppressed_len(b, s.drop_last());
    }
}

fn argmax_first(s: &Vec<i32>, from: usize) -> (r: usize)
    requires
        from < s@.len(),
    ensures
        from <= r < s@.len(),
        r - from == first_max(s@.skip(from as int).map_values(|v: i32| v as int)),
{
    let ghost t = s@.skip(from as int).map_values(|v: i32| v as int);
    let n = s.len();
    let mut best: usize = from;
    let mut k: usize = from + 1;
    assert(t.take(1).len() <= 1);
    while k < s.len()
        invariant
            from < k <= s@.len(),
            from <= best < k,
            t == s@.skip(from as int).map_values(|v: i32| v as int),
            best - from == first_max(t.take(k - from)),
        decreases s@.len() - k,
    {
        let ghost u = t.take(k + 1 - from);
        assert(u.drop_last() =~= t.take(k - from));
        if s[k] > s[best] {
            best = k;
        }
        k = k + 1;
    }
    assert(t.take(k - from) =~= t);
    best
}

fn to_percent_exec(v: i32) -> (r: i32)
    ensures
        r == to_percent(v as int),
{
    if v >= 0 {
        ((v as u64) * 5 / 32) as i32
    } else {
        let m: u64 = (-(v as i64)) as u64;
        -((m * 5 / 32) as i64) as i32
    }
}

/// Decodes raw model rows (four box values in millionths of a pixel of the
/// 640-pixel input, then one score per class in millionths) into detections.
pub fn process_output(output: &Vec<Vec<i32>>, labels: &Vec<String>) -> (r: Vec<Detection>)
    requires
        forall|i: int| 0 <= i < output@.len() ==> (#[trigger] output@[i])@.len() > BOX_VALUES,
    ensures
        r@ == decode_rows(output@, labels@.len() as int),
{
    let mut result: Vec<Detection> = Vec::new();
    let mut i: usize = 0;
    while i < output.len()
        invariant
            i <= output@.len(),
            forall|j: int| 0 <= j < output@.len() ==> (#[trigger] output@[j])@.len() > BOX_VALUES,
            result@ == decode_rows(output@.take(i as int), labels@.len() as int),
        decreases output@.len() - i,
    {
        let row = &output[i];
        let ghost rows = output@.take(i + 1);
        assert(rows.drop_last() =~= output@.take(i as int));
        assert(rows.last() == output@[i as int]);
        let c = argmax_first(row, BOX_VALUES) - BOX_VALUES;
        let p = row[c + BOX_VALUES];
        proof {
            lemma_first_max(class_scores(row@));
            assert(class_scores(row@)[c as int] == p as int);
        }
        if p >= CONFIDENCE_THRESHOLD && c < labels.len() {
            let d = Detection {
                bbox: BoundingBox {
                    xc: to_percent_exec(row[0]),
                    yc: to_percent_exec(row[1]),
                    w: to_percent_exec(row[2]),
                    h: to_percent_exec(row[3]),
                },
                class_id: c,
                confidence: p as u32,
            };
            result.push(d);
        }
        i = i + 1;
    }
    assert(output@.take(i as int) =~= output@);
    result
}

fn most_confident(s: &Vec<Detection>) -> (r: usize)
    requires
        s@.len() > 0,
    ensures
        r == first_max(confidences(s@)),
        r < s@.len(),
{
    let ghost t = confidences(s@);
    let n = s.len();
    let mut best: usize = 0;
    let mut k: usize = 1;
    while k < n
        invariant
            n == s@.len(),
            0 < k <= n,
            best < k,
            t == confidences(s@),
            best == first_max(t.take(k as int)),
        decreases n - k,
    {
        assert(t.take(k + 1).drop_last() =~= t.take(k as int));
        if s[k].confidence > s[best].confidence {
            best = k;
        }
        k = k + 1;
    }
    assert(t.take(n as int) =~= t);
    best
}

/// Removes duplicate detections of one object by greedy non-maximum
/// suppression; survivors come out in the order they were chosen.
pub fn deduplicate_boxes(boxes: Vec<Detection>) -> (r: Vec<Detection>)
    ensures
        r@ == nms(boxes@),
{
    let mut result: Vec<Detection> = Vec::new();
    let mut remaining = boxes;
    while remaining.len() > 0
        invariant
            nms(boxes@) == result@ + nms(remaining@),
        decreases remaining@.len(),
    {
        let i = most_confident(&remaining);
        let b = remaining.remove(i);
        result.push(b);
        let mut next: Vec<Detection> = Vec::new();
        let mut k: usize = 0;
        while k < remaining.len()
            invariant
                k <= remaining@.len(),
                next@ == unsuppressed(b.bbox, remaining@.take(k as int)),
            decreases remaining@.len() - k,
        {
            assert(remaining@.take(k + 1).drop_last() =~= remaining@.take(k as int));
            let d = remaining[k];
            if !b.bbox.suppresses(&d.bbox) {
                next.push(d);
            }
            k = k + 1;
        }
        assert(remaining@.take(k as int) =~= remaining@);
        proof {
            lemma_unsuppressed_len(b.bbox, remaining@);
            assert(result@ + nms(next@) =~= result@.drop_last() + (seq![b] + nms(next@)));
        }
        remaining = next;
    }
    assert(result@ + nms(remaining@) =~= result@);
    result
}

proof fn lemma_unsuppressed_members(b: BoundingBox, s: Seq<Detection>)
    ensures
        forall|k: int|
            0 <= k < unsuppressed(b, s).len() ==> s.contains(#[trigger] unsuppressed(b, s)[k])
                && !b.spec_suppresses(unsuppressed(b, s)[k].bbox),
    decreases s.len(),
{
    if s.len() > 0 {
        let t = s.drop_last();
        lemma_unsuppressed_members(b, t);
        assert forall|k: int| 0 <= k < unsuppressed(b, s).len() implies s.contains(
            #[trigger] unsuppressed(b, s)[k],
        ) && !b.spec_suppresses(unsuppressed(b, s)[k].bbox) by {
            if k < unsuppressed(b, t).len() {
                let x = unsuppressed(b, t)[k];
                assert(t.contains(x));
                let j = choose|j: int| 0 <= j < t.len() && t[j] == x;
                assert(s[j] == x);
            } else {
                assert(s[s.len() - 1] == s.last());
            }
        }
    }
}

proof fn lemma_unsuppressed_keeps_all(b: BoundingBox, s: Seq<Detection>)
    requires
        forall|k: int| 0 <= k < s.len() ==> !b.spec_suppresses(#[trigger] s[k].bbox),
    ensures
        unsuppressed(b, s) == s,
    decreases s.len(),
{
    if s.len() > 0 {
        let t = s.drop_last();
        assert forall|k: int| 0 <= k < t.len() implies !b.spec_suppresses(#[trigger] t[k].bbox) by {
            assert(t[k] == s[k]);
        }
        lemma_unsuppressed_keeps_all(b, t);
        assert(t.push(s.last()) =~= s);
    }
}

/// Every detection that survives suppression was among its input.
pub proof fn lemma_nms_members(s: Seq<Detection>)
    ensures
        forall|k: int| 0 <= k < nms(s).len() ==> s.contains(#[trigger] nms(s)[k]),
    decreases s.len(),
{
    if s.len() > 0 {
        let c = confidences(s);
        let i = first_max(c);
        lemma_first_max(c);
        let b = s[i];
        let rest = s.remove(i);
        let r = unsuppressed(b.bbox, rest);
        lemma_unsuppressed_len(b.bbox, rest);
        lemma_nms_members(r);
        lemma_unsuppressed_members(b.bbox, rest);
        assert forall|k: int| 0 <= k < nms(s).len() implies s.contains(#[trigger] nms(s)[k]) by {
            if k > 0 {
                let x = nms(r)[k - 1];
                assert(nms(s)[k] == x);
                assert(r.contains(x));
                let j = choose|j: int| 0 <= j < r.len() && r[j] == x;
                assert(rest.contains(x));
                let m = choose|m: int| 0 <= m < rest.len() && rest[m] == x;
                if m < i {
                    assert(s[m] == x);
                } else {
                    assert(s[m + 1] == x);
                }
            } else {
                assert(nms(s)[0] == s[i]);
            }
        }
    }
}

/// A sequence in which no detection is more confident than one before it,
/// and none is suppressed by one before it.
pub open spec fn is_deduplicated(t: Seq<Detection>) -> bool {
    forall|i: int, j: int|
        0 <= i < j < t.len() ==> (#[trigger] t[j]).confidence <= (#[trigger] t[i]).confidence
            && !t[i].bbox.spec_suppresses(t[j].bbox)
}

/// What non-maximum suppression returns is deduplicated.
pub proof fn lemma_nms_deduplicated(s: Seq<Detection>)
    ensures
        is_deduplicated(nms(s)),
    decreases s.len(),
{
    if s.len() > 0 {
        let c = confidences(s);
        let i = first_max(c);
        lemma_first_max(c);
        let b = s[i];
        let rest = s.remove(i);
        let r = unsuppressed(b.bbox, rest);
        lemma_unsuppressed_len(b.bbox, rest);
        lemma_nms_deduplicated(r);
        lemma_nms_members(r);
        lemma_unsuppressed_members(b.bbox, rest);
        let t = nms(s);
        assert(t == seq![b] + nms(r));
        assert forall|p: int, q: int| 0 <= p < q < t.len() implies (#[trigger] t[q]).confidence
            <= (#[trigger] t[p]).confidence && !t[p].bbox.spec_suppresses(t[q].bbox) by {
            if p > 0 {
                assert(t[p] == nms(r)[p - 1]);
                assert(t[q] == nms(r)[q - 1]);
            } else {
                let x = nms(r)[q - 1];
                assert(t[q] == x);
                assert(r.contains(x));
                let j = choose|j: int| 0 <= j < r.len() && r[j] == x;
                assert(rest.contains(x));
                let m = choose|m: int| 0 <= m < rest.len() && rest[m] == x;
                if m < i {
                    assert(s[m] == x);
                    assert(c[m] <= c[i]);
                } else {
                    assert(s[m + 1] == x);
                    assert(c[m + 1] <= c[i]);
                }
            }
        }
    }
}

/// Non-maximum suppression leaves a deduplicated sequence as it is.
pub proof fn lemma_nms_fixed_point(t: Seq<Detection>)
    requires
        is_deduplicated(t),
    ensures
        nms(t) == t,
    decreases t.len(),
{
    if t.len() > 0 {
        let c = confidences(t);
        lemma_first_max(c);
        let i = first_max(c);
        if i > 0 {
            assert(c[0] < c[i]);
            assert(t[i].confidence <= t[0].confidence);
        }
        assert(i == 0);
        let rest = t.remove(0);
        assert(rest =~= t.drop_first());
        assert forall|k: int| 0 <= k < rest.len() implies !t[0].bbox.spec_suppresses(
            #[trigger] rest[k].bbox,
        ) by {
            assert(rest[k] == t[k + 1]);
        }
        lemma_unsuppressed_keeps_all(t[0].bbox, rest);
        assert forall|p: int, q: int| 0 <= p < q < rest.len() implies (#[trigger] rest[q]).confidence
            <= (#[trigger] rest[p]).confidence && !rest[p].bbox.spec_suppresses(rest[q].bbox) by {
            assert(rest[p] == t[p + 1]);
            assert(rest[q] == t[q + 1]);
        }
        lemma_nms_fixed_point(rest);
        assert(seq![t[0]] + rest =~= t);
    }
}

/// Deduplicating twice gives what deduplicating once gave.
pub proof fn lemma_deduplicate_idempotent(s: Seq<Detection>)
    ensures
        nms(nms(s)) == nms(s),
{
    lemma_nms_deduplicated(s);
    lemma_nms_fixed_point(nms(s));
}

/// Every decoded detection's class index names a label.
pub proof fn lemma_decoded_labels(rows: Seq<Vec<i32>>, n_labels: int)
    ensures
        forall|k: int|
            0 <= k < decode_rows(rows, n_labels).len() ==> (#[trigger] decode_rows(
                rows,
                n_labels,
            )[k]).class_id < n_labels,
    decreases rows.len(),
{
    if rows.len() > 0 {
        let prev = decode_rows(rows.drop_last(), n_labels);
        lemma_decoded_labels(rows.drop_last(), n_labels);
        let scores = class_scores(rows.last()@);
        if scores.len() > 0 {
            lemma_first_max(scores);
        }
        assert forall|k: int| 0 <= k < prev.len() implies decode_rows(rows, n_labels)[k] == #[trigger] prev[k] by {
        }
    }
}

proof fn lemma_column_index(j: int, i: int, rows: int, cols: int)
    requires
        0 <= j < cols,
        0 <= i < rows,
    ensures
        0 <= j * rows + i < cols * rows,
{
    assert(0 <= j * rows + i < cols * rows) by (nonlinear_arith)
        requires
            0 <= j < cols,
            0 <= i < rows,
    ;
}

/// Turns the model's output, stored value by value (all candidates' first
/// values, then all their second values, and so on), into one row per
/// candidate.
pub fn candidate_rows(flat: &Vec<i32>, n_values: usize, n_candidates: usize) -> (r: Vec<Vec<i32>>)
    requires
        flat@.len() == n_values * n_candidates,
    ensures
        r@.len() == n_candidates,
        forall|i: int| 0 <= i < n_candidates ==> (#[trigger] r@[i])@.len() == n_values,
        forall|i: int, j: int|
            0 <= i < n_candidates && 0 <= j < n_values ==> #[trigger] r@[i]@[j] == flat@[j
                * n_candidates + i],
{
    let len = flat.len();
    let mut rows: Vec<Vec<i32>> = Vec::new();
    let mut i: usize = 0;
    while i < n_candidates
        invariant
            i <= n_candidates,
            len == flat@.len() == n_values * n_candidates,
            rows@.len() == i,
            forall|k: int| 0 <= k < i ==> (#[trigger] rows@[k])@.len() == n_values,
            forall|k: int, j: int|
                0 <= k < i && 0 <= j < n_values ==> #[trigger] rows@[k]@[j] == flat@[j
                    * n_candidates + k],
        decreases n_candidates - i,
    {
        let mut row: Vec<i32> = Vec::new();
        let mut j: usize = 0;
        while j < n_values
            invariant
                i < n_candidates,
                j <= n_values,
                len == flat@.len() == n_values * n_candidates,
                row@.len() == j,
                forall|m: int| 0 <= m < j ==> #[trigger] row@[m] == flat@[m * n_candidates + i],
            decreases n_values - j,
        {
            proof {
                lemma_column_index(j as int, i as int, n_candidates as int, n_values as int);
            }
            row.push(flat[j * n_candidates + i]);
            j = j + 1;
        }
        rows.push(row);
        proof {
            assert forall|k: int, m: int| 0 <= k < i + 1 && 0 <= m < n_values implies
            #[trigger] rows@[k]@[m] == flat@[m * n_candidates + k] by {
                if k == i {
                    assert(rows@[k]@ == row@);
                }
            }
        }
        i = i + 1;
    }
    rows
}

} // verus!
