use vscode_search_provider::ranking::find_matching_workspaces;
use vscode_search_provider::score::{match_score, Score};
use vscode_search_provider::text::{fold_case, matches_at, rfind_bytes};
use vscode_search_provider::workspace::RecentWorkspace;

fn do_match<'a>(projects: &[(&'a str, RecentWorkspace)], terms: &[&str]) -> Vec<&'a str> {
    let pairs: Vec<(&'a str, &RecentWorkspace)> = projects.iter().map(|(s, p)| (*s, p)).collect();
    let terms: Vec<String> = terms.iter().map(|t| t.to_string()).collect();
    find_matching_workspaces(&pairs, &terms)
}

fn workspace(name: &str, url: &str) -> RecentWorkspace {
    RecentWorkspace {
        name: name.to_string(),
        url: url.to_string(),
    }
}

fn score_of(name: &str, url: &str, terms: &[&str]) -> Option<Score> {
    let terms: Vec<String> = terms.iter().map(|t| t.to_string()).collect();
    match_score(&workspace(name, url), &terms)
}

#[test]
fn matches_something() {
    let workspaces = vec![(
        "foo",
        RecentWorkspace {
            name: "mdcat".to_string(),
            url: "file:///home/foo/dev/mdcat".to_string(),
        },
    )];
    assert_eq!(do_match(&workspaces, &["mdcat"]), ["foo"]);
}

#[test]
fn do_not_find_undesired_projects() {
    let workspaces = vec![
        (
            "foo-1",
            RecentWorkspace {
                name: "ui-pattern-library".to_string(),
                url: "file:///home/foo/dev/something/ui-pattern-library".to_string(),
            },
        ),
        (
            "foo-2",
            RecentWorkspace {
                name: "dauntless-builder".to_string(),
                url: "file:///home/foo/dev/dauntless-builder".to_string(),
            },
        ),
        (
            "foo-3",
            RecentWorkspace {
                name: "typo3-ssr".to_string(),
                url: "file:///home/foo/dev/something/typo3-ssr".to_string(),
            },
        ),
    ];
    assert!(do_match(&workspaces, &["flutter_test_app"]).is_empty());
}

#[test]
fn ignore_case_of_name() {
    let workspaces = vec![(
        "foo",
        RecentWorkspace {
            name: "mdCat".to_string(),
            url: "file:///home/foo/dev/foo".to_string(),
        },
    )];
    assert_eq!(do_match(&workspaces, &["Mdcat"]), ["foo"]);
}

#[test]
fn ignore_case_of_url() {
    let workspaces = vec![(
        "foo",
        RecentWorkspace {
            name: "bar".to_string(),
            url: "file:///home/foo/dev/mdcaT".to_string(),
        },
    )];
    assert_eq!(do_match(&workspaces, &["Mdcat"]), ["foo"]);
}

#[test]
fn matches_in_name_rank_higher() {
    let projects = vec![
        (
            "1",
            RecentWorkspace {
                name: "bar".to_string(),
                // This matches foo as well because of /home/foo
                url: "file:///home/foo/dev/bar".to_string(),
            },
        ),
        (
            "2",
            RecentWorkspace {
                name: "foo".to_string(),
                url: "/home/foo/dev/foo".to_string(),
            },
        ),
    ];
    assert_eq!(do_match(&projects, &["foo"]), ["2", "1"]);
}

#[test]
fn matches_at_end_of_url_rank_higher() {
    let projects = vec![
        (
            "1",
            RecentWorkspace {
                name: "p1".to_string(),
                // This matches foo as well because of /home/foo
                url: "file:///home/foo/dev/bar".to_string(),
            },
        ),
        (
            "2",
            RecentWorkspace {
                name: "p1".to_string(),
                url: "file:///home/foo/dev/foo".to_string(),
            },
        ),
    ];
    assert_eq!(do_match(&projects, &["foo"]), ["2", "1"]);
}

#[test]
fn score_of_name_and_url_match() {
    // Ten for the name, and 21 of 26 for the rightmost place in the location.
    assert_eq!(
        score_of("mdcat", "file:///home/foo/dev/mdcat", &["mdcat"]),
        Some(Score { whole: 10, rem: 21, den: 26 })
    );
}

#[test]
fn score_of_url_match_only() {
    // "foo" stands at 13 and not in the name.
    assert_eq!(
        score_of("bar", "file:///home/foo/dev/bar", &["foo"]),
        Some(Score { whole: 0, rem: 13, den: 24 })
    );
}

#[test]
fn score_takes_rightmost_place() {
    // "foo" stands at 13 and at 21.
    assert_eq!(
        score_of("bar", "file:///home/foo/dev/foo", &["foo"]),
        Some(Score { whole: 0, rem: 21, den: 24 })
    );
}

#[test]
fn score_adds_up_over_terms() {
    // "ab" at 0 and "cd" at 2 of 4 in the location, both in the name.
    assert_eq!(
        score_of("abcd", "abcd", &["ab", "cd"]),
        Some(Score { whole: 20, rem: 2, den: 4 })
    );
    // "cd" at 2 and "d" at 3: five quarters.
    assert_eq!(
        score_of("x", "abcd", &["cd", "d"]),
        Some(Score { whole: 1, rem: 1, den: 4 })
    );
}

#[test]
fn name_counts_only_if_all_terms_stand_in_it() {
    // "dev" is in the location only, so the name gives nothing for "mdcat" either.
    assert_eq!(
        score_of("mdcat", "file:///home/foo/dev/mdcat", &["mdcat", "dev"]),
        Some(Score { whole: 1, rem: 12, den: 26 })
    );
}

#[test]
fn url_counts_only_if_all_terms_stand_in_it() {
    assert_eq!(
        score_of("mdcat-zz", "file:///home/foo/dev/mdcat", &["mdcat", "zz"]),
        Some(Score { whole: 20, rem: 0, den: 26 })
    );
    assert_eq!(
        score_of("other", "file:///home/foo/dev/mdcat", &["mdcat", "zz"]),
        Some(Score { whole: 0, rem: 0, den: 26 })
    );
}

#[test]
fn empty_term_stands_at_the_end() {
    assert_eq!(
        score_of("a", "abc", &[""]),
        Some(Score { whole: 11, rem: 0, den: 3 })
    );
}

#[test]
fn no_terms_match_nothing() {
    assert_eq!(
        score_of("mdcat", "file:///mdcat", &[]),
        Some(Score { whole: 0, rem: 0, den: 13 })
    );
    let workspaces = vec![("foo", workspace("mdcat", "file:///mdcat"))];
    assert!(do_match(&workspaces, &[]).is_empty());
}

#[test]
fn empty_location_has_no_score_for_empty_terms() {
    assert_eq!(score_of("name", "", &[""]), None);
    let workspaces = vec![("foo", workspace("name", ""))];
    assert!(do_match(&workspaces, &[""]).is_empty());
}

#[test]
fn empty_location_can_match_by_name() {
    assert_eq!(
        score_of("name", "", &["na"]),
        Some(Score { whole: 10, rem: 0, den: 1 })
    );
    let workspaces = vec![("foo", workspace("name", ""))];
    assert_eq!(do_match(&workspaces, &["na"]), ["foo"]);
}

#[test]
fn case_is_ignored_in_every_field() {
    let lower = score_of("mdcat", "file:///dev/mdcat", &["mdcat"]);
    assert_eq!(score_of("MDCat", "file:///dev/mdcat", &["mdcat"]), lower);
    assert_eq!(score_of("mdcat", "FILE:///Dev/MdCat", &["mdcat"]), lower);
    assert_eq!(score_of("mdcat", "file:///dev/mdcat", &["MDCAT"]), lower);
    assert_eq!(
        score_of("ÄRGER", "file:///ÄRGER", &["ärger"]),
        score_of("ärger", "file:///ärger", &["ÄRGER"])
    );
}

#[test]
fn equal_scores_keep_their_order() {
    let workspaces = vec![
        ("a", workspace("foo", "file:///x/foo")),
        ("b", workspace("zzz", "file:///x/zzz")),
        ("c", workspace("foo", "file:///x/foo")),
        ("d", workspace("foo", "file:///y/foo")),
    ];
    assert_eq!(do_match(&workspaces, &["foo"]), ["a", "c", "d"]);
}

#[test]
fn equal_fractions_of_different_lengths_keep_their_order() {
    // 2 of 6 and 1 of 3 are the same score; 1 of 2 is above both.
    let workspaces = vec![
        ("sixths", workspace("n", "aabxxx")),
        ("half", workspace("n", "ab")),
        ("third", workspace("n", "abx")),
    ];
    assert_eq!(do_match(&workspaces, &["b"]), ["half", "sixths", "third"]);
    let workspaces = vec![
        ("third", workspace("n", "abx")),
        ("half", workspace("n", "ab")),
        ("sixths", workspace("n", "aabxxx")),
    ];
    assert_eq!(do_match(&workspaces, &["b"]), ["half", "third", "sixths"]);
}

#[test]
fn ranking_sorts_by_score_descending() {
    let workspaces = vec![
        ("low", workspace("n", "foo/xxxxxxxx")),
        ("high", workspace("foo", "foo/xxxxxxxx")),
        ("mid", workspace("n", "xxxxxxxx/foo")),
        ("none", workspace("n", "xxxxxxxx")),
        ("top", workspace("foo", "xxxxxxxx/foo")),
    ];
    assert_eq!(do_match(&workspaces, &["foo"]), ["top", "high", "mid"]);
    // 11 of 12 twice, then 7 of 8, then 7 of 12 twice.
    assert_eq!(
        do_match(&workspaces, &["x"]),
        ["low", "high", "none", "mid", "top"]
    );
}

#[test]
fn ranking_works_on_a_subset() {
    let workspaces = vec![
        ("2", workspace("n", "xxxxxxxx/foo")),
        ("1", workspace("foo", "foo/xxxxxxxx")),
    ];
    assert_eq!(do_match(&workspaces, &["foo"]), ["1", "2"]);
    let workspaces = vec![("2", workspace("n", "xxxxxxxx/foo"))];
    assert_eq!(do_match(&workspaces, &["foo"]), ["2"]);
}

#[test]
fn scores_compare_as_fractions() {
    let third = Score { whole: 0, rem: 1, den: 3 };
    let sixths = Score { whole: 0, rem: 2, den: 6 };
    let half = Score { whole: 0, rem: 1, den: 2 };
    let one = Score { whole: 1, rem: 0, den: 7 };
    assert!(!third.outranks(&sixths));
    assert!(!sixths.outranks(&third));
    assert!(half.outranks(&third));
    assert!(!third.outranks(&half));
    assert!(one.outranks(&half));
    assert!(!half.outranks(&one));
    assert!(half.is_positive());
    assert!(one.is_positive());
    assert!(!Score { whole: 0, rem: 0, den: 5 }.is_positive());
    let big = Score { whole: 0, rem: u64::MAX - 1, den: u64::MAX };
    let bigger = Score { whole: 0, rem: u64::MAX - 2, den: u64::MAX - 1 };
    assert!(big.outranks(&bigger));
    assert!(!bigger.outranks(&big));
}

#[test]
fn fold_case_lowers_and_encodes() {
    assert_eq!(fold_case("MdCat"), b"mdcat".to_vec());
    assert_eq!(fold_case("ÄB"), "äb".as_bytes().to_vec());
    assert_eq!(fold_case(""), Vec::<u8>::new());
}

#[test]
fn rfind_bytes_finds_rightmost() {
    assert_eq!(rfind_bytes(b"abcabc", b"bc"), Some(4));
    assert_eq!(rfind_bytes(b"abcabc", b"ab"), Some(3));
    assert_eq!(rfind_bytes(b"abcabc", b"abcabc"), Some(0));
    assert_eq!(rfind_bytes(b"abcabc", b"cb"), None);
    assert_eq!(rfind_bytes(b"abc", b"abcd"), None);
    assert_eq!(rfind_bytes(b"abc", b""), Some(3));
    assert_eq!(rfind_bytes(b"", b""), Some(0));
    assert_eq!(rfind_bytes(b"", b"a"), None);
    assert_eq!(rfind_bytes(b"aaa", b"aa"), Some(1));
}

#[test]
fn matches_at_compares_in_place() {
    assert!(matches_at(b"abcabc", b"bc", 1));
    assert!(!matches_at(b"abcabc", b"bc", 2));
    assert!(matches_at(b"abc", b"", 3));
    assert!(!matches_at(b"abc", b"", 4));
    assert!(!matches_at(b"abc", b"bc", 2));
    assert!(!matches_at(b"abc", b"abcd", 0));
    assert!(!matches_at(b"abc", b"c", usize::MAX));
}
