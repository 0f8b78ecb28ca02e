use repo_stars::report::output;
use repo_stars::types::Repo;

fn repo(name: &str, stars: usize) -> Repo {
    Repo { stargazers_count: stars, name: name.to_string() }
}

#[test]
fn total_ignores_limit_and_threshold() {
    let repos = vec![repo("a", 5), repo("b", 1)];
    assert_eq!(output(repos, 0, 0), "Total: 6\n");
}

#[test]
fn sorted_filtered_and_limited() {
    let repos = vec![repo("a", 1), repo("bb", 10), repo("ccc", 5)];
    assert_eq!(output(repos, 2, 2), "Total: 16\n\nbb    ★  10\nccc   ★  5\n");
}

#[test]
fn nothing_above_threshold_prints_total_only() {
    let repos = vec![repo("a", 5), repo("b", 1)];
    assert_eq!(output(repos, 10, 6), "Total: 6\n");
}

#[test]
fn rendering_twice_gives_same_text() {
    let repos = vec![repo("x", 3), repo("yy", 3), repo("z", 7)];
    let first = output(repos.clone(), 5, 0);
    let second = output(repos, 5, 0);
    assert_eq!(first.as_bytes(), second.as_bytes());
}

#[test]
fn no_repos_gives_zero_total() {
    assert_eq!(output(vec![], 3, 0), "Total: 0\n");
}

#[test]
fn equal_star_counts_keep_input_order() {
    let repos = vec![repo("b", 2), repo("a", 2), repo("c", 9), repo("d", 2)];
    assert_eq!(
        output(repos, 10, 0),
        "Total: 15\n\nc   ★  9\nb   ★  2\na   ★  2\nd   ★  2\n"
    );
}

#[test]
fn threshold_is_inclusive() {
    let repos = vec![repo("keep", 4), repo("drop", 3)];
    assert_eq!(output(repos, 10, 4), "Total: 7\n\nkeep   ★  4\n");
}

#[test]
fn width_counts_bytes_padding_counts_chars() {
    let repos = vec![repo("é", 3), repo("ab", 1)];
    assert_eq!(output(repos, 10, 0), "Total: 4\n\né    ★  3\nab   ★  1\n");
}

#[test]
fn width_follows_listed_names_only() {
    let repos = vec![repo("a", 5), repo("a-very-long-name", 1)];
    assert_eq!(output(repos, 1, 0), "Total: 6\n\na   ★  5\n");
}

#[test]
fn zero_stars_listed_with_zero_threshold() {
    let repos = vec![repo("n", 0)];
    assert_eq!(output(repos, 1, 0), "Total: 0\n\nn   ★  0\n");
}

#[test]
fn huge_total_does_not_overflow() {
    let repos = vec![repo("p", usize::MAX), repo("q", usize::MAX)];
    let expected_total = (usize::MAX as u128) * 2;
    let expected = format!(
        "Total: {}\n\np   ★  {}\nq   ★  {}\n",
        expected_total,
        usize::MAX,
        usize::MAX
    );
    assert_eq!(output(repos, 2, 0), expected);
}
