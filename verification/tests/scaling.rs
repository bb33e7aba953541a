use azurejay::orchestrator::CoAResult;
use azurejay::scaling::{best_candidate, clamp_score, extract_correction, JUDGE_PREAMBLE};
use azurejay::trajectory::{parse_segments, Trajectory};

fn result(answer: &str, stream: &str) -> CoAResult {
    let mut trajectory = Trajectory::new();
    trajectory.segments = parse_segments(stream);
    CoAResult { answer: answer.to_string(), trajectory, steps: 1, replans: 0 }
}

#[test]
fn scores_are_clamped() {
    assert_eq!(clamp_score(-5), 1);
    assert_eq!(clamp_score(0), 1);
    assert_eq!(clamp_score(3), 3);
    assert_eq!(clamp_score(9), 4);
}

#[test]
fn best_is_last_of_the_highest() {
    let ranked = vec![(3, "a"), (4, "b"), (2, "c"), (4, "d"), (1, "e")];
    assert_eq!(best_candidate(ranked), (4, "d"));
    assert_eq!(best_candidate(vec![(2, "only")]), (2, "only"));
    let expected = vec![(1, 'x'), (1, 'y')].into_iter().max_by_key(|p| p.0).unwrap();
    assert_eq!(best_candidate(vec![(1, 'x'), (1, 'y')]), expected);
}

#[test]
fn correction_is_first_saved() {
    let r = result(
        "a",
        "<save_correction>{\"a\":1}</save_correction><save_correction>second</save_correction>",
    );
    assert_eq!(extract_correction(&r), "{\"a\":1}");
    assert_eq!(extract_correction(&result("a", "<answer>a</answer>")), "");
    assert!(JUDGE_PREAMBLE.starts_with("You are a strict but fair judge"));
}
