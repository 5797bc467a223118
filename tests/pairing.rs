use selectors::pairing::{cartesian_product, generate_pairs, Draw};

fn lines(items: &[&str]) -> Vec<String> {
    items.iter().map(|s| s.to_string()).collect()
}

fn as_tuples(draws: &[Draw]) -> Vec<(String, String)> {
    draws.iter().map(|d| (d.from.clone(), d.to.clone())).collect()
}

fn tuples(items: &[(&str, &str)]) -> Vec<(String, String)> {
    items.iter().map(|(a, b)| (a.to_string(), b.to_string())).collect()
}

#[test]
fn three_lines_give_six_pairs_in_index_order() {
    let r = cartesian_product(lines(&["a", "b", "c"]));
    assert_eq!(
        as_tuples(&r),
        tuples(&[("a", "b"), ("a", "c"), ("b", "a"), ("b", "c"), ("c", "a"), ("c", "b")])
    );
}

#[test]
fn three_lines_generate_the_six_pairs_in_some_order() {
    let mut r = as_tuples(&generate_pairs(lines(&["a", "b", "c"])));
    r.sort();
    assert_eq!(
        r,
        tuples(&[("a", "b"), ("a", "c"), ("b", "a"), ("b", "c"), ("c", "a"), ("c", "b")])
    );
}

#[test]
fn single_line_gives_no_pair() {
    assert!(generate_pairs(lines(&["a"])).is_empty());
    assert!(cartesian_product(lines(&["a"])).is_empty());
}

#[test]
fn no_lines_give_no_pair() {
    assert!(generate_pairs(Vec::new()).is_empty());
}

#[test]
fn equal_lines_exclude_each_other() {
    let r = cartesian_product(lines(&["a", "a", "b"]));
    assert_eq!(as_tuples(&r), tuples(&[("a", "b"), ("a", "b"), ("b", "a"), ("b", "a")]));
}

#[test]
fn empty_lines_are_kept_as_lines() {
    let r = cartesian_product(lines(&["", "x"]));
    assert_eq!(as_tuples(&r), tuples(&[("", "x"), ("x", "")]));
}

#[test]
fn distinct_lines_give_n_times_n_minus_one_pairs() {
    let r = generate_pairs(lines(&["w", "x", "y", "z", "v"]));
    assert_eq!(r.len(), 5 * 4);
}

#[test]
fn generated_pairs_never_join_equal_lines() {
    let r = generate_pairs(lines(&["p", "q", "p", "r", "q"]));
    for d in &r {
        assert_ne!(d.from, d.to);
    }
}

#[test]
fn generated_pairs_are_a_permutation_of_the_product() {
    let input = lines(&["one", "two", "two", "three"]);
    let mut shuffled = as_tuples(&generate_pairs(input.clone()));
    let mut ordered = as_tuples(&cartesian_product(input));
    shuffled.sort();
    ordered.sort();
    assert_eq!(shuffled, ordered);
    assert_eq!(ordered.len(), 16 - 6);
}

#[test]
fn draw_new_keeps_both_lines() {
    let d = Draw::new("from".to_string(), "to".to_string());
    assert_eq!(d.from, "from");
    assert_eq!(d.to, "to");
}
