use astranova::utils::{merge_variables, timestamp_millis, timestamp_seconds};

fn pairs(v: &[(&str, &str)]) -> Vec<(String, String)> {
    v.iter().map(|(a, b)| (a.to_string(), b.to_string())).collect()
}

#[test]
fn merge_collection_takes_precedence() {
    let env = pairs(&[("host", "env.test"), ("token", "e")]);
    let col = pairs(&[("token", "c"), ("extra", "x")]);
    let merged = merge_variables(&col, &env);
    assert_eq!(merged, pairs(&[("host", "env.test"), ("token", "c"), ("extra", "x")]));
}

#[test]
fn merge_with_empty_sides() {
    let env = pairs(&[("a", "1")]);
    assert_eq!(merge_variables(&[], &env), env);
    let col = pairs(&[("b", "2"), ("b", "3")]);
    assert_eq!(merge_variables(&col, &[]), pairs(&[("b", "3")]));
}

#[test]
fn timestamps_are_current() {
    let s = timestamp_seconds();
    assert!(s.chars().all(|c| c.is_ascii_digit()));
    let secs: u64 = s.parse().unwrap();
    assert!(secs > 1_600_000_000);
    assert!(timestamp_millis() / 1000 >= secs);
}
