use fetcher::aggregate::{merge_pages, sort_by_stars, Aggregate};
use fetcher::page::{
    check_status, is_success, page_repositories, page_url, page_urls, push_decimal, PageError,
    BASE_URL, PAGE_COUNT, PER_PAGE, USER_AGENT,
};
use fetcher::repository::{into_entries, into_repositories, Repository, RepositoryWithStars, SearchResult};

fn remote(name: &str, stars: u32) -> RepositoryWithStars {
    RepositoryWithStars {
        name: name.to_string(),
        description: Some(format!("about {}", name)),
        html_url: format!("https://github.com/owner/{}", name),
        stargazers_count: stars,
    }
}

fn repo(name: &str, stars: u32) -> Repository {
    Repository::from_remote(remote(name, stars))
}

fn page_of(prefix: &str, stars: &[u32]) -> Result<Vec<Repository>, PageError> {
    let items: Vec<RepositoryWithStars> = stars
        .iter()
        .enumerate()
        .map(|(i, s)| remote(&format!("{}{}", prefix, i), *s))
        .collect();
    page_repositories(SearchResult { items })
}

fn stars_of(v: &[Repository]) -> Vec<u32> {
    v.iter().map(|r| r.stargazers_count).collect()
}

fn names_of(v: &[Repository]) -> Vec<String> {
    v.iter().map(|r| r.name.clone()).collect()
}

#[test]
fn one_page_sorted_by_stars() {
    let out = merge_pages(vec![page_of("a", &[5, 1, 9])]);
    assert_eq!(out.len(), 3);
    assert_eq!(stars_of(&out), vec![1, 5, 9]);
    assert_eq!(names_of(&out), vec!["a1", "a0", "a2"]);
    let entries = into_entries(out);
    assert_eq!(entries.len(), 3);
    assert_eq!(entries[0].name, "a1");
    assert_eq!(entries[1].name, "a0");
    assert_eq!(entries[2].name, "a2");
}

#[test]
fn failed_status_page_is_left_out() {
    let second = check_status(503).map(|_| Vec::new());
    assert_eq!(second.as_ref().err(), Some(&PageError::Status(503)));
    let out = merge_pages(vec![page_of("a", &[7, 3]), second]);
    assert_eq!(out.len(), 2);
    assert_eq!(names_of(&out), vec!["a1", "a0"]);
}

#[test]
fn empty_page_is_a_failure() {
    let r = page_repositories(SearchResult { items: Vec::new() });
    assert_eq!(r.err(), Some(PageError::Empty));
}

#[test]
fn four_pages_in_any_order() {
    let stars: [&[u32]; 4] = [&[10, 4], &[8, 2, 6], &[1], &[3, 9, 5, 7]];
    let in_order: Vec<_> = (0..4).map(|i| page_of(&format!("p{}-", i), stars[i])).collect();
    let reversed: Vec<_> = (0..4).rev().map(|i| page_of(&format!("p{}-", i), stars[i])).collect();
    let mixed: Vec<_> = [2, 0, 3, 1].iter().map(|&i| page_of(&format!("p{}-", i), stars[i])).collect();
    let a = merge_pages(in_order);
    let b = merge_pages(reversed);
    let c = merge_pages(mixed);
    assert_eq!(a.len(), 10);
    assert_eq!(b.len(), 10);
    assert_eq!(c.len(), 10);
    assert_eq!(stars_of(&a), vec![1, 2, 3, 4, 5, 6, 7, 8, 9, 10]);
    assert_eq!(names_of(&a), names_of(&b));
    assert_eq!(names_of(&a), names_of(&c));
}

#[test]
fn all_pages_counted() {
    let pages = vec![page_of("a", &[1, 2, 3]), page_of("b", &[4]), page_of("c", &[5, 6])];
    assert_eq!(merge_pages(pages).len(), 6);
}

#[test]
fn merge_is_ascending() {
    let pages = vec![page_of("a", &[50, 3, 3, 99]), page_of("b", &[0, 4294967295, 17])];
    let out = merge_pages(pages);
    for w in out.windows(2) {
        assert!(w[0].stargazers_count <= w[1].stargazers_count);
    }
    assert_eq!(stars_of(&out), vec![0, 3, 3, 17, 50, 99, 4294967295]);
}

#[test]
fn fields_are_carried_through() {
    let out = merge_pages(vec![page_of("x", &[2, 1])]);
    let entries = into_entries(out);
    assert_eq!(entries[0].name, "x1");
    assert_eq!(entries[0].description.as_deref(), Some("about x1"));
    assert_eq!(entries[0].html_url, "https://github.com/owner/x1");
    assert_eq!(entries[1].name, "x0");
    assert_eq!(entries[1].html_url, "https://github.com/owner/x0");
}

#[test]
fn mapping_keeps_visible_fields() {
    let item = RepositoryWithStars {
        name: "telescope.nvim".to_string(),
        description: None,
        html_url: "https://github.com/nvim-telescope/telescope.nvim".to_string(),
        stargazers_count: 15000,
    };
    let r = Repository::from_remote(item);
    assert_eq!(r.name, "telescope.nvim");
    assert_eq!(r.description, None);
    assert_eq!(r.html_url, "https://github.com/nvim-telescope/telescope.nvim");
    assert_eq!(r.stargazers_count, 15000);
    let e = r.into_entry();
    assert_eq!(e.name, "telescope.nvim");
    assert_eq!(e.description, None);
    assert_eq!(e.html_url, "https://github.com/nvim-telescope/telescope.nvim");
}

#[test]
fn one_failed_page_among_four() {
    let pages = vec![
        page_of("a", &[4, 2]),
        Err(PageError::Transport),
        page_of("c", &[3]),
        page_of("d", &[1, 5]),
    ];
    let out = merge_pages(pages);
    assert_eq!(stars_of(&out), vec![1, 2, 3, 4, 5]);
    assert_eq!(names_of(&out), vec!["d0", "a1", "c0", "a0", "d1"]);
}

#[test]
fn every_page_failed_gives_empty_list() {
    let pages = vec![
        Err(PageError::Transport),
        Err(PageError::Parse),
        Err(PageError::Empty),
        Err(PageError::Status(500)),
    ];
    assert!(merge_pages(pages).is_empty());
    assert!(merge_pages(Vec::new()).is_empty());
}

#[test]
fn page_addresses() {
    assert_eq!(
        page_url(1),
        "https://api.github.com/search/repositories?q=nvim+plugin&per_page=100&page=1"
    );
    let urls = page_urls();
    assert_eq!(urls.len(), PAGE_COUNT as usize);
    for (i, u) in urls.iter().enumerate() {
        assert_eq!(*u, format!("{}&per_page={}&page={}", BASE_URL, PER_PAGE, i + 1));
    }
    assert_eq!(USER_AGENT, "Rust reqwest");
}

#[test]
fn decimal_digits() {
    let mut s = String::from("n=");
    push_decimal(&mut s, 0);
    assert_eq!(s, "n=0");
    let mut s = String::new();
    push_decimal(&mut s, 100);
    assert_eq!(s, "100");
    let mut s = String::new();
    push_decimal(&mut s, 4294967295);
    assert_eq!(s, "4294967295");
}

#[test]
fn success_range() {
    assert!(!is_success(199));
    assert!(is_success(200));
    assert!(is_success(299));
    assert!(!is_success(300));
    assert!(!is_success(404));
    assert_eq!(check_status(200), Ok(()));
    assert_eq!(check_status(403), Err(PageError::Status(403)));
    assert_eq!(check_status(302), Err(PageError::Status(302)));
}

#[test]
fn equal_stars_keep_their_order() {
    let v = vec![repo("a", 2), repo("b", 1), repo("c", 2), repo("d", 1), repo("e", 2)];
    let out = sort_by_stars(v);
    assert_eq!(names_of(&out), vec!["b", "d", "a", "c", "e"]);
}

#[test]
fn aggregate_collects_pages() {
    let mut agg = Aggregate::new();
    assert_eq!(agg.len(), 0);
    agg.add_page(page_of("a", &[3, 1]));
    assert_eq!(agg.len(), 2);
    agg.add_page(Err(PageError::Parse));
    assert_eq!(agg.len(), 2);
    agg.add_page(page_of("b", &[2]));
    assert_eq!(agg.len(), 3);
    let out = agg.into_sorted();
    assert_eq!(names_of(&out), vec!["a1", "b0", "a0"]);
}

#[test]
fn page_keeps_item_order() {
    let items = vec![remote("z", 9), remote("y", 1), remote("x", 5)];
    let repos = into_repositories(items);
    assert_eq!(names_of(&repos), vec!["z", "y", "x"]);
    assert_eq!(stars_of(&repos), vec![9, 1, 5]);
    let r = page_repositories(SearchResult { items: vec![remote("only", 0)] }).unwrap();
    assert_eq!(r.len(), 1);
    assert_eq!(r[0].name, "only");
}
