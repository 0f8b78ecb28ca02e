use repo_stars::pages::{collect_pages, last_page};
use repo_stars::types::{Error, Repo, User};

fn repo(name: &str, stars: usize) -> Repo {
    Repo { stargazers_count: stars, name: name.to_string() }
}

#[test]
fn zero_page_size_is_refused() {
    for public_repos in [0usize, 1, 10, usize::MAX] {
        let r = last_page(&User { public_repos }, 0);
        assert_eq!(r, Err(Error::ZeroPageSize));
    }
    assert_eq!(Error::ZeroPageSize.message(), "PageSize must be greater than 0");
}

#[test]
fn no_repos_fetches_only_page_zero() {
    for page_size in [1usize, 3, 100, usize::MAX] {
        assert_eq!(last_page(&User { public_repos: 0 }, page_size), Ok(0));
    }
}

#[test]
fn ten_repos_three_per_page_fetches_four_pages() {
    let last = last_page(&User { public_repos: 10 }, 3).unwrap();
    assert_eq!(last, 3);
    assert_eq!((0..=last).count(), 4);
}

#[test]
fn exact_multiple_still_fetches_one_extra_page() {
    assert_eq!(last_page(&User { public_repos: 9 }, 3), Ok(3));
    assert_eq!(last_page(&User { public_repos: 2 }, 3), Ok(0));
}

#[test]
fn pages_are_joined_in_page_order() {
    let a = repo("a", 1);
    let b = repo("b", 2);
    let c = repo("c", 3);
    let results: Vec<Result<Vec<Repo>, String>> =
        vec![Ok(vec![a.clone(), b.clone()]), Ok(vec![c.clone()])];
    assert_eq!(collect_pages(results), Ok(vec![a, b, c]));
}

#[test]
fn empty_pages_join_to_empty_list() {
    let results: Vec<Result<Vec<Repo>, String>> = vec![Ok(vec![]), Ok(vec![])];
    assert_eq!(collect_pages(results), Ok(vec![]));
    let none: Vec<Result<Vec<Repo>, String>> = vec![];
    assert_eq!(collect_pages(none), Ok(vec![]));
}

#[test]
fn any_failed_page_fails_the_whole_fetch() {
    let results: Vec<Result<Vec<Repo>, String>> =
        vec![Ok(vec![repo("a", 1)]), Err("page 1".to_string()), Ok(vec![repo("c", 3)])];
    assert_eq!(collect_pages(results), Err("page 1".to_string()));
}

#[test]
fn first_failure_in_page_order_is_reported() {
    let results: Vec<Result<Vec<Repo>, String>> = vec![
        Ok(vec![repo("a", 1)]),
        Err("page 1".to_string()),
        Err("page 2".to_string()),
    ];
    assert_eq!(collect_pages(results), Err("page 1".to_string()));
}
