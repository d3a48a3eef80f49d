use vstd::prelude::*;

use crate::api::{Pred, PredValue, PredictResponse};
use crate::text::{decimal, decimal_text, join};
use crate::postprocess::{
    Detection, decode_rows, nms, process_output, deduplicate_boxes, lemma_decoded_labels,
    lemma_nms_members, BOX_VALUES,
};

verus! {

/// Version tag reported with every answer.
pub const MODEL_VERSION: &'static str = "1";

/// Sum of the confidences, in millionths.
pub open spec fn sum_confidence(s: Seq<Detection>) -> int
    decreases s.len(),
{
    if s.len() == 0 {
        0
    } else {
        sum_confidence(s.drop_last()) + s.last().confidence as int
    }
}

/// Mean confidence of the detections, rounded down; zero when there are none.
pub open spec fn mean_confidence(s: Seq<Detection>) -> int {
    if s.len() == 0 {
        0
    } else {
        sum_confidence(s) / s.len() as int
    }
}

proof fn lemma_sum_bound(s: Seq<Detection>)
    ensures
        0 <= sum_confidence(s) <= s.len() * u32::MAX,
    decreases s.len(),
{
    if s.len() > 0 {
        lemma_sum_bound(s.drop_last());
    }
}

/// A task's score: the mean confidence of its surviving detections, or zero
/// when none survive.
pub fn aggregate_score(dets: &Vec<Detection>) -> (r: u32)
    ensures
        r == mean_confidence(dets@),
{
    let n = dets.len();
    let mut sum: u128 = 0;
    let mut i: usize = 0;
    while i < n
        invariant
            n == dets@.len(),
            i <= n,
            sum == sum_confidence(dets@.take(i as int)),
            sum <= i * u32::MAX,
        decreases n - i,
    {
        assert(dets@.take(i + 1).drop_last() =~= dets@.take(i as int));
        proof {
            assert((i + 1) * u32::MAX == i * u32::MAX + u32::MAX) by (nonlinear_arith);
            assert(i * u32::MAX <= 0x1_0000_0000_0000_0000 * 0x1_0000_0000) by (nonlinear_arith)
                requires
                    i < 0x1_0000_0000_0000_0000,
            ;
        }
        sum = sum + dets[i].confidence as u128;
        i = i + 1;
    }
    assert(dets@.take(n as int) =~= dets@);
    if n == 0 {
        0
    } else {
        proof {
            let t = sum as int;
            let m = n as int;
            assert(t / m <= u32::MAX) by (nonlinear_arith)
                requires
                    0 <= t <= m * u32::MAX,
                    m > 0,
            ;
        }
        (sum / n as u128) as u32
    }
}

/// Half of `e`, rounded toward zero.
pub open spec fn half(e: int) -> int {
    if e >= 0 {
        e / 2
    } else {
        -((-e) / 2)
    }
}

/// The low edge of an extent `e` around a center `c`.
pub open spec fn low_edge(c: int, e: int) -> int {
    c - half(e)
}

/// `p` is detection `d`, the `i`-th of its task, labelled `label`, on an
/// image of `w` by `h` pixels.
pub open spec fn renders(p: Pred, d: Detection, i: int, label: Seq<char>, w: u32, h: u32) -> bool {
    &&& p.id@ == decimal(i as nat)
    &&& p.from_name@ == "label"@
    &&& p.to_name@ == "image"@
    &&& p.t@ == "rectanglelabels"@
    &&& p.score == d.confidence
    &&& p.original_width == w
    &&& p.original_height == h
    &&& p.image_rotation == 0
    &&& p.value.rotation == 0
    &&& p.value.x == low_edge(d.bbox.xc as int, d.bbox.w as int)
    &&& p.value.y == low_edge(d.bbox.yc as int, d.bbox.h as int)
    &&& p.value.width == d.bbox.w
    &&& p.value.height == d.bbox.h
    &&& p.value.rectanglelabels@.len() == 1
    &&& p.value.rectanglelabels@[0]@ == label
    &&& !p.readonly
}

/// Every class index of `dets` names a label.
pub open spec fn labelled(dets: Seq<Detection>, n_labels: int) -> bool {
    forall|i: int| 0 <= i < dets.len() ==> (#[trigger] dets[i]).class_id < n_labels
}

/// `r` answers for a task whose surviving detections are `dets`.
pub open spec fn responds(
    r: PredictResponse,
    dets: Seq<Detection>,
    labels: Seq<String>,
    w: u32,
    h: u32,
) -> bool {
    &&& r.result@.len() == dets.len()
    &&& forall|i: int|
        0 <= i < dets.len() ==> renders(
            #[trigger] r.result@[i],
            dets[i],
            i,
            labels[dets[i].class_id as int]@,
            w,
            h,
        )
    &&& r.score == mean_confidence(dets)
    &&& r.model_version is Some
    &&& r.model_version->0@ == MODEL_VERSION@
}

fn low_edge_exec(c: i32, e: i32) -> (r: i64)
    ensures
        r == low_edge(c as int, e as int),
{
    let e = e as i64;
    let h: i64 = if e >= 0 {
        e / 2
    } else {
        -((-e) / 2)
    };
    c as i64 - h
}

/// The prediction for detection `d`, the `i`-th of its task.
pub fn render_prediction(d: &Detection, i: usize, labels: &Vec<String>, w: u32, h: u32) -> (r: Pred)
    requires
        d.class_id < labels@.len(),
    ensures
        renders(r, *d, i as int, labels@[d.class_id as int]@, w, h),
{
    let mut names: Vec<String> = Vec::new();
    names.push(labels[d.class_id].clone());
    Pred {
        id: decimal_text(i as u64),
        from_name: "label".to_owned(),
        to_name: "image".to_owned(),
        t: "rectanglelabels".to_owned(),
        score: d.confidence,
        original_width: w,
        original_height: h,
        image_rotation: 0,
        value: PredValue {
            rotation: 0,
            x: low_edge_exec(d.bbox.xc, d.bbox.w),
            y: low_edge_exec(d.bbox.yc, d.bbox.h),
            width: d.bbox.w,
            height: d.bbox.h,
            rectanglelabels: names,
        },
        readonly: false,
    }
}

/// The answer for a task whose surviving detections are `dets`, in order.
pub fn render_response(dets: &Vec<Detection>, labels: &Vec<String>, w: u32, h: u32) -> (r:
    PredictResponse)
    requires
        labelled(dets@, labels@.len() as int),
    ensures
        responds(r, dets@, labels@, w, h),
{
    let mut result: Vec<Pred> = Vec::new();
    let mut i: usize = 0;
    while i < dets.len()
        invariant
            i <= dets@.len(),
            labelled(dets@, labels@.len() as int),
            result@.len() == i,
            forall|k: int|
                0 <= k < i ==> renders(
                    #[trigger] result@[k],
                    dets@[k],
                    k,
                    labels@[dets@[k].class_id as int]@,
                    w,
                    h,
                ),
        decreases dets@.len() - i,
    {
        let p = render_prediction(&dets[i], i, labels, w, h);
        result.push(p);
        i = i + 1;
    }
    PredictResponse {
        result,
        score: aggregate_score(dets),
        model_version: Some(MODEL_VERSION.to_owned()),
    }
}

/// The detections that a task's raw model rows come to: decoded, then
/// deduplicated.
pub open spec fn task_detections(rows: Seq<Vec<i32>>, n_labels: int) -> Seq<Detection> {
    nms(decode_rows(rows, n_labels))
}

/// Everything a task's unit of work computes after inference: decoding,
/// suppression, scoring and rendering of its predictions.
pub fn task_response(output: &Vec<Vec<i32>>, labels: &Vec<String>, w: u32, h: u32) -> (r:
    PredictResponse)
    requires
        forall|i: int| 0 <= i < output@.len() ==> (#[trigger] output@[i])@.len() > BOX_VALUES,
    ensures
        responds(r, task_detections(output@, labels@.len() as int), labels@, w, h),
{
    let decoded = process_output(output, labels);
    let kept = deduplicate_boxes(decoded);
    proof {
        let n = labels@.len() as int;
        lemma_decoded_labels(output@, n);
        lemma_nms_members(decode_rows(output@, n));
        assert forall|k: int| 0 <= k < kept@.len() implies (#[trigger] kept@[k]).class_id < n by {
            let x = kept@[k];
            assert(decoded@.contains(x));
        }
    }
    render_response(&kept, labels, w, h)
}

/// The values of `done` put in the order of their tags: the value tagged
/// `k` comes `k`-th. The tags must be `0..done.len()`, each once.
pub fn order_results<T>(done: Vec<(usize, T)>) -> (r: Vec<T>)
    requires
        forall|j: int| 0 <= j < done@.len() ==> (#[trigger] done@[j]).0 < done@.len(),
        forall|j: int, m: int|
            0 <= j < m < done@.len() ==> (#[trigger] done@[j]).0 != (#[trigger] done@[m]).0,
    ensures
        r@.len() == done@.len(),
        forall|j: int| 0 <= j < done@.len() ==> r@[(#[trigger] done@[j]).0 as int] == done@[j].1,
{
    let ghost d = done@;
    let n = done.len();
    let mut slots: Vec<Option<T>> = Vec::new();
    let mut k: usize = 0;
    while k < n
        invariant
            k <= n,
            slots@.len() == k,
            forall|m: int| 0 <= m < k ==> (#[trigger] slots@[m]) is None,
        decreases n - k,
    {
        slots.push(None);
        k = k + 1;
    }
    let mut done = done;
    assert(d.take(n as int) =~= d);
    while done.len() > 0
        invariant
            n == d.len(),
            slots@.len() == n,
            done@.len() <= n,
            done@ == d.take(done@.len() as int),
            forall|j: int| 0 <= j < d.len() ==> (#[trigger] d[j]).0 < n,
            forall|j: int, m: int| 0 <= j < m < d.len() ==> (#[trigger] d[j]).0 != (#[trigger] d[m]).0,
            forall|j: int| done@.len() <= j < n ==> slots@[(#[trigger] d[j]).0 as int] == Some(d[j].1),
            forall|m: int|
                0 <= m < n && (#[trigger] slots@[m]) is Some ==> exists|j: int|
                    done@.len() <= j < n && (#[trigger] d[j]).0 == m,
        decreases done@.len(),
    {
        let ghost before = done@.len() as int;
        let pair = done.pop().unwrap();
        assert(pair == d[before - 1]);
        let tag = pair.0;
        let v = pair.1;
        assert(done@ =~= d.take(before - 1));
        slots.set(tag, Some(v));
        assert forall|m: int|
            0 <= m < n && (#[trigger] slots@[m]) is Some implies exists|j: int|
                before - 1 <= j < n && (#[trigger] d[j]).0 == m by {
            if m != tag {
            } else {
                assert(d[before - 1].0 == m);
            }
        }
    }
    let ghost full = slots@;
    assert forall|m: int| 0 <= m < n implies (#[trigger] full[m]) is Some by {
        assert(exists|j: int| 0 <= j < n && (#[trigger] d[j]).0 == m) by {
            lemma_tags_cover(d, m);
        }
        let j = choose|j: int| 0 <= j < n && (#[trigger] d[j]).0 == m;
        assert(full[d[j].0 as int] == Some(d[j].1));
    }
    let mut rev: Vec<T> = Vec::new();
    while slots.len() > 0
        invariant
            full.len() == n,
            forall|m: int| 0 <= m < n ==> (#[trigger] full[m]) is Some,
            slots@ == full.take(slots@.len() as int),
            rev@.len() == n - slots@.len(),
            forall|m: int| 0 <= m < rev@.len() ==> Some(#[trigger] rev@[m]) == full[n - 1 - m],
        decreases slots@.len(),
    {
        let ghost before = slots@.len() as int;
        let o = slots.pop().unwrap();
        assert(o == full[before - 1]);
        assert(slots@ =~= full.take(before - 1));
        match o {
            Some(v) => rev.push(v),
            None => {},
        }
    }
    let mut out: Vec<T> = Vec::new();
    let ghost r0 = rev@;
    while rev.len() > 0
        invariant
            r0.len() == n,
            rev@ == r0.take(rev@.len() as int),
            out@.len() == n - rev@.len(),
            forall|m: int| 0 <= m < out@.len() ==> (#[trigger] out@[m]) == r0[n - 1 - m],
        decreases rev@.len(),
    {
        let ghost before = rev@.len() as int;
        let v = rev.pop().unwrap();
        assert(v == r0[before - 1]);
        assert(rev@ =~= r0.take(before - 1));
        out.push(v);
    }
    assert forall|j: int| 0 <= j < n implies out@[(#[trigger] d[j]).0 as int] == d[j].1 by {
        let m = d[j].0 as int;
        assert(out@[m] == r0[n - 1 - m]);
        assert(Some(r0[n - 1 - m]) == full[m]);
    }
    out
}

/// `n` distinct tags below `n` take every value below `n`.
proof fn lemma_tags_cover<T>(d: Seq<(usize, T)>, m: int)
    requires
        0 <= m < d.len(),
        forall|j: int| 0 <= j < d.len() ==> (#[trigger] d[j]).0 < d.len(),
        forall|j: int, k: int| 0 <= j < k < d.len() ==> (#[trigger] d[j]).0 != (#[trigger] d[k]).0,
    ensures
        exists|j: int| 0 <= j < d.len() && (#[trigger] d[j]).0 == m,
{
    let tags = Set::new(|t: int| exists|j: int| 0 <= j < d.len() && (#[trigger] d[j]).0 == t);
    let idx = Set::new(|j: int| 0 <= j < d.len());
    let f = |j: int| d[j].0 as int;
    assert(idx =~= vstd::set_lib::set_int_range(0, d.len() as int));
    vstd::set_lib::lemma_int_range(0, d.len() as int);
    assert(idx.map(f) =~= tags) by {
        assert forall|t: int| tags.contains(t) implies idx.map(f).contains(t) by {
            let j = choose|j: int| 0 <= j < d.len() && (#[trigger] d[j]).0 == t;
            assert(idx.contains(j) && f(j) == t);
        }
    }
    assert forall|a: int, b: int| idx.contains(a) && idx.contains(b) && #[trigger] f(a) == #[trigger] f(b)
        implies a == b by {
        if a < b {
            assert(d[a].0 != d[b].0);
        } else if b < a {
            assert(d[b].0 != d[a].0);
        }
    }
    vstd::set_lib::lemma_map_size(idx, tags, f);
    let range = vstd::set_lib::set_int_range(0, d.len() as int);
    assert(tags.subset_of(range));
    if !tags.contains(m) {
        assert(tags.subset_of(range.remove(m)));
        vstd::set_lib::lemma_len_subset(tags, range.remove(m));
    }
}

/// The address of a task's image: the image source's base address followed
/// by the task's image path.
pub fn image_url(base: &String, image: &String) -> (r: String)
    ensures
        r@ == base@ + image@,
{
    join(base.as_str(), image.as_str())
}

/// The value of the authorization header sent to the image source.
pub fn authorization(token: &String) -> (r: String)
    ensures
        r@ == "Token "@ + token@,
{
    join("Token ", token.as_str())
}

} // verus!
