use octosurfer::aggregate::Aggregator;
use octosurfer::code_queries::{CodeQueries, MatchCounts, QueriesError, QueryResults};
use octosurfer::github_query::{GithubQuery, OctoSurfer, QueryError, Verbosity};
use octosurfer::runner::{
    acquire_action, collect_outcomes, rate_limit_action, reset_delay, AcquireAction, CleanupSet,
    RateAction, RepoDescriptor, RepoError, ResetError,
};
use octosurfer::search::{is_hidden, not_hidden};

fn strings(v: &[&str]) -> Vec<String> {
    v.iter().map(|s| s.to_string()).collect()
}

fn queries(v: &[&str]) -> CodeQueries {
    CodeQueries::from_lines(&strings(v)).unwrap()
}

fn results(owner: &str, name: &str, matches: &[&str]) -> QueryResults {
    let mut inner = MatchCounts::new();
    inner.record_matches(&strings(matches));
    QueryResults {
        repo_name: name.to_string(),
        repo_owner: owner.to_string(),
        inner,
    }
}

fn surfer(keywords: &str) -> OctoSurfer {
    OctoSurfer {
        keywords: keywords.to_string(),
        languages: None,
        pushed: None,
        stars: None,
        topics: None,
        target_dir: "repos".to_string(),
        query_file: "queries.txt".to_string(),
        out_file: "out.csv".to_string(),
        rm: false,
        verbosity: Verbosity::Info,
    }
}

#[test]
fn patterns_keep_order_and_are_trimmed() {
    let q = queries(&["  foo ", "\tbar", "baz  "]);
    assert_eq!(q.as_slice(), &strings(&["foo", "bar", "baz"])[..]);
    let listed: Vec<&String> = q.iter().collect();
    assert_eq!(listed, vec!["foo", "bar", "baz"]);
    assert_eq!(q.len(), 3);
}

#[test]
fn blank_lines_still_make_patterns() {
    let q = queries(&["   ", ""]);
    assert_eq!(q.as_slice(), &strings(&["", ""])[..]);
}

#[test]
fn duplicate_patterns_are_kept() {
    let q = queries(&["foo", "foo"]);
    assert_eq!(q.len(), 2);
}

#[test]
fn no_lines_is_empty_input() {
    let r = CodeQueries::from_lines(&Vec::new());
    assert_eq!(r.err(), Some(QueriesError::EmptyInput));
}

#[test]
fn match_counts_tally_each_text() {
    let mut c = MatchCounts::new();
    c.record_matches(&strings(&["foo", "bar", "foo"]));
    c.increment(&"foo".to_string());
    assert_eq!(c.get(&"foo".to_string()), 3);
    assert_eq!(c.get(&"bar".to_string()), 1);
    assert_eq!(c.get(&"baz".to_string()), 0);
}

#[test]
fn counts_are_written_in_decimal() {
    let q = queries(&["x", "y"]);
    let mut agg = Aggregator::new(&q);
    let many: Vec<&str> = std::iter::repeat("x").take(1234).collect();
    let mut with_y = many.clone();
    with_y.extend(std::iter::repeat("y").take(10));
    agg.add(results("o", "r", &with_y));
    assert_eq!(agg.rows(), strings(&["repo,x,y", "o/r,1234,10"]));
}

#[test]
fn report_of_two_repositories() {
    let q = queries(&["foo", "bar"]);
    let mut agg = Aggregator::new(&q);
    agg.add(results("ownerA", "repo1", &["foo", "foo", "foo"]));
    agg.add(results("ownerB", "repo2", &["bar"]));
    let rows = agg.rows();
    assert_eq!(rows.len(), 3);
    assert_eq!(rows[0], "repo,foo,bar");
    let mut data: Vec<String> = rows[1..].to_vec();
    data.sort();
    assert_eq!(data, strings(&["ownerA/repo1,3,0", "ownerB/repo2,0,1"]));
    let text = agg.render();
    assert!(text.starts_with("repo,foo,bar\n"));
    assert!(text.contains("ownerA/repo1,3,0\n"));
    assert!(text.contains("ownerB/repo2,0,1\n"));
    assert_eq!(text.lines().count(), 3);
    assert!(text.ends_with('\n'));
}

#[test]
fn unmatched_pattern_still_has_a_column() {
    let q = queries(&["foo", "never"]);
    let mut agg = Aggregator::new(&q);
    agg.add(results("o", "r", &["foo"]));
    assert_eq!(agg.rows(), strings(&["repo,foo,never", "o/r,1,0"]));
}

#[test]
fn same_identifier_overwrites() {
    let q = queries(&["foo"]);
    let mut agg = Aggregator::new(&q);
    agg.add(results("o", "r", &["foo"]));
    agg.add(results("o", "r", &["foo", "foo"]));
    assert_eq!(agg.rows(), strings(&["repo,foo", "o/r,2"]));
}

#[test]
fn empty_table_is_header_only() {
    let q = queries(&["a", "b", "c"]);
    let agg = Aggregator::new(&q);
    assert_eq!(agg.render(), "repo,a,b,c\n");
}

#[test]
fn failed_clone_is_counted_and_left_out() {
    let q = queries(&["foo", "bar"]);
    let mut agg = Aggregator::new(&q);
    let outcomes = vec![
        Err("Failed to clone repo ownerA/repo1! Exit code: 128".to_string()),
        Ok(results("ownerB", "repo2", &["bar"])),
    ];
    let tally = collect_outcomes(&mut agg, outcomes);
    assert_eq!(tally.succeeded, 1);
    assert_eq!(tally.failed, 1);
    assert_eq!(agg.rows(), strings(&["repo,foo,bar", "ownerB/repo2,0,1"]));
}

#[test]
fn query_string_of_all_filters() {
    let mut s = surfer("web,server");
    s.languages = Some("rust,go".to_string());
    s.pushed = Some(">2020-01-01".to_string());
    s.stars = Some(">100".to_string());
    s.topics = Some("http".to_string());
    let q = GithubQuery::from_argh(&s).to_query_string().unwrap();
    assert_eq!(
        q,
        "web server language:rust language:go pushed:>2020-01-01 stars:>100 topic:http"
    );
}

#[test]
fn query_string_of_keywords_alone() {
    let q = GithubQuery::from_argh(&surfer("solo")).to_query_string().unwrap();
    assert_eq!(q, "solo");
}

#[test]
fn query_string_keeps_empty_pieces() {
    let q = GithubQuery::from_argh(&surfer("a,,b")).to_query_string().unwrap();
    assert_eq!(q, "a  b");
}

#[test]
fn query_string_at_the_limit() {
    let k = "é".repeat(256);
    let q = GithubQuery::from_argh(&surfer(&k)).to_query_string().unwrap();
    assert_eq!(q.chars().count(), 256);
}

#[test]
fn query_string_over_the_limit() {
    let k = "x".repeat(257);
    let r = GithubQuery::from_argh(&surfer(&k)).to_query_string();
    assert_eq!(r.err(), Some(QueryError::TooLong));
}

#[test]
fn hidden_names() {
    assert!(is_hidden(".git"));
    assert!(is_hidden(".config"));
    assert!(!is_hidden("README.md"));
    assert!(!is_hidden("src"));
    assert!(!is_hidden(""));
    assert!(not_hidden("README.md"));
    assert!(!not_hidden(".git"));
}

#[test]
fn rate_limit_decisions() {
    assert_eq!(rate_limit_action(0, 1_700_000_005), RateAction::WaitForReset(1_700_000_005));
    assert_eq!(rate_limit_action(1, 0), RateAction::CoolDown(5));
    assert_eq!(rate_limit_action(9, 0), RateAction::CoolDown(5));
    assert_eq!(rate_limit_action(10, 0), RateAction::Proceed);
    assert_eq!(rate_limit_action(30, 0), RateAction::Proceed);
}

#[test]
fn spent_budget_waits_until_reset() {
    let now = 1_700_000_000i64;
    let reset = 1_700_000_005u64;
    assert_eq!(rate_limit_action(0, reset), RateAction::WaitForReset(reset));
    assert_eq!(reset_delay(reset, now, 0), Ok(Some(5_000_000_000)));
    assert_eq!(reset_delay(reset, now, 250_000_000), Ok(Some(4_750_000_000)));
}

#[test]
fn past_reset_does_not_wait() {
    assert_eq!(reset_delay(100, 100, 0), Ok(None));
    assert_eq!(reset_delay(100, 100, 1), Ok(None));
    assert_eq!(reset_delay(0, 1_700_000_000, 0), Ok(None));
}

#[test]
fn reset_out_of_range() {
    assert_eq!(reset_delay(u64::MAX, 0, 0), Err(ResetError::OutOfRange));
    assert_eq!(reset_delay(i64::MAX as u64, i64::MIN, 0).map(|d| d.is_some()), Ok(true));
}

#[test]
fn repository_metadata_is_required() {
    let d = RepoDescriptor::from_parts(
        "r".to_string(),
        Some("o".to_string()),
        Some("https://example.com/o/r.git".to_string()),
    )
    .unwrap();
    assert_eq!(d.owner, "o");
    assert_eq!(d.name, "r");
    assert_eq!(d.clone_url, "https://example.com/o/r.git");
    let e = RepoDescriptor::from_parts("r".to_string(), None, None).err();
    assert_eq!(e, Some(RepoError::MissingOwner));
    let e = RepoDescriptor::from_parts("r".to_string(), Some("o".to_string()), None).err();
    assert_eq!(e, Some(RepoError::MissingCloneUrl));
}

#[test]
fn clone_or_update() {
    assert_eq!(acquire_action(false), AcquireAction::Clone);
    assert_eq!(acquire_action(true), AcquireAction::Update);
}

#[test]
fn cleanup_holds_each_owner_once() {
    let mut c = CleanupSet::new();
    c.record(&"alice".to_string());
    c.record(&"bob".to_string());
    c.record(&"alice".to_string());
    assert_eq!(c.owners(), &strings(&["alice", "bob"])[..]);
}
