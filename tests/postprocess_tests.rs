use detect_backend::geometry::BoundingBox;
use detect_backend::pipeline::{
    aggregate_score, authorization, image_url, order_results, render_prediction, task_response,
};
use detect_backend::postprocess::{deduplicate_boxes, process_output, Detection};

fn det(xc: i32, yc: i32, w: i32, h: i32, confidence: u32) -> Detection {
    Detection { bbox: BoundingBox { xc, yc, w, h }, class_id: 0, confidence }
}

fn labels() -> Vec<String> {
    vec!["cat".to_string(), "dog".to_string()]
}

#[test]
fn nms_keeps_descending_order_without_overlap() {
    let boxes = vec![
        det(10_000_000, 10_000_000, 5_000_000, 5_000_000, 900_000),
        det(40_000_000, 40_000_000, 5_000_000, 5_000_000, 800_000),
        det(80_000_000, 80_000_000, 5_000_000, 5_000_000, 950_000),
    ];
    let out = deduplicate_boxes(boxes);
    let confs: Vec<u32> = out.iter().map(|d| d.confidence).collect();
    assert_eq!(confs, vec![950_000, 900_000, 800_000]);
}

#[test]
fn nms_suppresses_heavy_overlap() {
    // overlap ratio 18/20 = 0.9
    let a = det(50_000_000, 50_000_000, 19_000_000, 1_000_000, 900_000);
    let b = det(51_000_000, 50_000_000, 19_000_000, 1_000_000, 800_000);
    let out = deduplicate_boxes(vec![b, a]);
    assert_eq!(out, vec![a]);
}

#[test]
fn nms_twice_is_nms_once() {
    let boxes = vec![
        det(50_000_000, 50_000_000, 19_000_000, 1_000_000, 800_000),
        det(51_000_000, 50_000_000, 19_000_000, 1_000_000, 900_000),
        det(10_000_000, 10_000_000, 5_000_000, 5_000_000, 700_000),
        det(10_000_000, 10_000_000, 0, 5_000_000, 990_000),
        det(10_000_000, 10_000_000, 0, 5_000_000, 990_000),
    ];
    let once = deduplicate_boxes(boxes);
    let twice = deduplicate_boxes(once.clone());
    assert_eq!(once, twice);
    assert_eq!(once.len(), 4);
    // equal confidences keep their input order; zero-area boxes suppress nothing
    assert_eq!(once[0].bbox.w, 0);
    assert_eq!(once[1].bbox.w, 0);
    assert_eq!(once[2].confidence, 900_000);
}

#[test]
fn nms_of_nothing_is_nothing() {
    assert!(deduplicate_boxes(vec![]).is_empty());
}

#[test]
fn score_of_no_detections_is_zero() {
    assert_eq!(aggregate_score(&vec![]), 0);
}

#[test]
fn score_is_mean_confidence() {
    let d = vec![det(0, 0, 1, 1, 900_000), det(0, 0, 1, 1, 800_000), det(0, 0, 1, 1, 800_001)];
    assert_eq!(aggregate_score(&d), 833_333);
    assert_eq!(aggregate_score(&vec![det(0, 0, 1, 1, u32::MAX), det(0, 0, 1, 1, u32::MAX)]), u32::MAX);
}

#[test]
fn decode_converts_to_percent() {
    let rows = vec![vec![320_000_000, 320_000_000, 64_000_000, 128_000_000, 100_000, 900_000]];
    let out = process_output(&rows, &labels());
    assert_eq!(out.len(), 1);
    assert_eq!(out[0].bbox, BoundingBox { xc: 50_000_000, yc: 50_000_000, w: 10_000_000, h: 20_000_000 });
    assert_eq!(out[0].class_id, 1);
    assert_eq!(out[0].confidence, 900_000);
}

#[test]
fn decode_rounds_toward_zero() {
    let rows = vec![vec![-33, 33, 7, -7, 600_000]];
    let out = process_output(&rows, &labels());
    assert_eq!(out[0].bbox, BoundingBox { xc: -5, yc: 5, w: 1, h: -1 });
}

#[test]
fn decode_filters_rows() {
    let rows = vec![
        // best score below the threshold
        vec![1, 1, 1, 1, 499_999, 100],
        // best class has no label
        vec![1, 1, 1, 1, 0, 0, 700_000],
        // threshold itself is kept; ties go to the lowest class
        vec![1, 1, 1, 1, 500_000, 500_000],
    ];
    let out = process_output(&rows, &labels());
    assert_eq!(out.len(), 1);
    assert_eq!(out[0].class_id, 0);
    assert_eq!(out[0].confidence, 500_000);
}

#[test]
fn rendered_box_uses_top_left_corner() {
    let rows = vec![vec![320_000_000, 320_000_000, 64_000_000, 128_000_000, 900_000, 0]];
    let resp = task_response(&rows, &labels(), 800, 600);
    assert_eq!(resp.result.len(), 1);
    let p = &resp.result[0];
    assert_eq!(p.value.x, 45_000_000);
    assert_eq!(p.value.y, 40_000_000);
    assert_eq!(p.value.width, 10_000_000);
    assert_eq!(p.value.height, 20_000_000);
    assert_eq!(p.value.rectanglelabels, vec!["cat".to_string()]);
    assert_eq!(p.id, "0");
    assert_eq!(p.from_name, "label");
    assert_eq!(p.to_name, "image");
    assert_eq!(p.t, "rectanglelabels");
    assert_eq!(p.original_width, 800);
    assert_eq!(p.original_height, 600);
    assert_eq!(p.score, 900_000);
    assert!(!p.readonly);
    assert_eq!(resp.score, 900_000);
    assert_eq!(resp.model_version, Some("1".to_string()));
}

#[test]
fn task_without_detections_scores_zero() {
    let rows = vec![vec![1, 1, 1, 1, 10, 20]];
    let resp = task_response(&rows, &labels(), 10, 10);
    assert!(resp.result.is_empty());
    assert_eq!(resp.score, 0);
}

#[test]
fn prediction_ids_are_decimal_indices() {
    let d = det(0, 0, 2, 2, 600_000);
    let p = render_prediction(&d, 12, &labels(), 1, 1);
    assert_eq!(p.id, "12");
    assert_eq!(p.value.x, -1);
}

#[test]
fn results_follow_task_order() {
    // unit B finished first, then C, then A
    let done = vec![(1usize, "B"), (2usize, "C"), (0usize, "A")];
    assert_eq!(order_results(done), vec!["A", "B", "C"]);
    let empty: Vec<(usize, u8)> = vec![];
    assert!(order_results(empty).is_empty());
}

#[test]
fn image_request_parts() {
    assert_eq!(
        image_url(&"http://ls:8080".to_string(), &"/data/upload/1/a.png".to_string()),
        "http://ls:8080/data/upload/1/a.png"
    );
    assert_eq!(authorization(&"SECRET-REDACTED".to_string()), "Token SECRET-REDACTED");
}

#[test]
fn candidate_rows_transpose_output() {
    // two values for each of three candidates
    let flat = vec![1, 2, 3, 10, 20, 30];
    let rows = detect_backend::postprocess::candidate_rows(&flat, 2, 3);
    assert_eq!(rows, vec![vec![1, 10], vec![2, 20], vec![3, 30]]);
}
