use boards_count::CommentNode;
use boards_count::CommentTreeExtractor;
use boards_count::ListingScanner;
use boards_count::Region;
use boards_count::ResolveOutcome;
use boards_count::ScoreResolver;
use boards_count::discussion_path;
use boards_count::host_name;
use boards_count::listing_page_path;
use boards_count::normalize_name;
use boards_count::parse_u64;
use boards_count::profile_path;
use boards_count::u64_to_string;

fn node(author: &str, replies: Vec<CommentNode>) -> CommentNode {
    CommentNode { author: author.to_string(), replies }
}

#[test]
fn region_fallback_is_symmetric() {
    assert_eq!(Region::Eune.other(), Region::Euw);
    assert_eq!(Region::Euw.other(), Region::Eune);
    assert_eq!(Region::Eune.other().other(), Region::Eune);
    assert_eq!(Region::Eune.code(), "eune");
    assert_eq!(Region::Euw.code(), "euw");
}

#[test]
fn parse_u64_reads_decimal() {
    assert_eq!(parse_u64("120"), Some(120));
    assert_eq!(parse_u64("0"), Some(0));
    assert_eq!(parse_u64("18446744073709551615"), Some(u64::MAX));
}

#[test]
fn parse_u64_rejects_bad_tokens() {
    assert_eq!(parse_u64(""), None);
    assert_eq!(parse_u64("1.2K"), None);
    assert_eq!(parse_u64("-5"), None);
    assert_eq!(parse_u64("12 "), None);
    assert_eq!(parse_u64("18446744073709551616"), None);
}

#[test]
fn u64_to_string_writes_decimal() {
    assert_eq!(u64_to_string(0), "0");
    assert_eq!(u64_to_string(7), "7");
    assert_eq!(u64_to_string(305), "305");
    assert_eq!(u64_to_string(u64::MAX), "18446744073709551615");
}

#[test]
fn normalize_strips_quotes() {
    assert_eq!(normalize_name("\"Gamma Ray\""), "Gamma Ray");
    assert_eq!(normalize_name("plain"), "plain");
    assert_eq!(normalize_name("a\"b\"c"), "abc");
    assert_eq!(normalize_name(""), "");
}

#[test]
fn request_paths_have_expected_shape() {
    assert_eq!(
        listing_page_path("/api/0oazE84H/discussions", 0),
        "/api/0oazE84H/discussions?num_loaded=0&sort_type=recent"
    );
    assert_eq!(
        listing_page_path("/api/0oazE84H/discussions", 3),
        "/api/0oazE84H/discussions?num_loaded=150&sort_type=recent"
    );
    assert_eq!(
        discussion_path("YzZuykbk", "e0ekEb3Z"),
        "/api/YzZuykbk/discussions/e0ekEb3Z"
    );
    assert_eq!(
        profile_path(Region::Eune, "Gamma Ray"),
        "/en/player/eune/Gamma Ray"
    );
    assert_eq!(host_name(Region::Euw), "boards.euw.leagueoflegends.com");
}

#[test]
fn scan_pairs_ids_across_pages() {
    let scanner = ListingScanner::new().unwrap();
    let page1 = "junk data-application-id=\\\"YzZuykbk\\\" noise data-discussion-id=\\\"e0ekEb3Z\\\" tail".to_string();
    let page2 = "data-application-id=\\\"YzZuykbk\\\" data-discussion-id=\\\"kfyaQhN4\\\"".to_string();
    let bodies = vec![page1, page2];
    let pairs = scanner.scan(&bodies).unwrap();
    assert_eq!(pairs.len(), 2);
    assert_eq!(pairs[0].application_id, "YzZuykbk");
    assert_eq!(pairs[0].discussion_id, "e0ekEb3Z");
    assert_eq!(pairs[1].application_id, "YzZuykbk");
    assert_eq!(pairs[1].discussion_id, "kfyaQhN4");
}

#[test]
fn scan_unequal_streams_is_mismatch() {
    let scanner = ListingScanner::new().unwrap();
    let body =
        "data-application-id=\\\"aaa\\\" data-application-id=\\\"bbb\\\" data-discussion-id=\\\"ccc\\\""
            .to_string();
    let bodies = vec![body];
    assert!(scanner.scan(&bodies).is_err());
}

#[test]
fn scan_keeps_duplicates() {
    let scanner = ListingScanner::new().unwrap();
    let body = "data-application-id=\\\"aaa\\\" data-discussion-id=\\\"ccc\\\"".to_string();
    let bodies = vec![body.clone(), body];
    let pairs = scanner.scan(&bodies).unwrap();
    assert_eq!(pairs.len(), 2);
    assert_eq!(pairs[1].application_id, "aaa");
    assert_eq!(pairs[1].discussion_id, "ccc");
}

#[test]
fn extract_collects_unique_names_depth_first() {
    let forest = vec![
        node("\"A\"", vec![node("\"B\"", vec![node("\"A\"", vec![])])]),
        node("\"C\"", vec![]),
    ];
    let mut names: Vec<String> = Vec::new();
    CommentTreeExtractor::extract(&forest, &mut names);
    assert_eq!(names, vec!["A".to_string(), "B".to_string(), "C".to_string()]);
}

#[test]
fn merged_sets_deduplicate_across_discussions() {
    // One discussion with a three-level reply chain, one flat discussion
    // sharing a participant: the merged set holds each name exactly once.
    let deep = vec![node("A", vec![node("B", vec![node("C", vec![])])])];
    let flat = vec![node("A", vec![]), node("D", vec![])];
    let mut names: Vec<String> = Vec::new();
    CommentTreeExtractor::extract(&deep, &mut names);
    CommentTreeExtractor::extract(&flat, &mut names);
    assert_eq!(
        names,
        vec!["A".to_string(), "B".to_string(), "C".to_string(), "D".to_string()]
    );
}

fn profile_body(score_token: &str) -> String {
    format!(
        "<html><div class=\"lifetime-upvotes\">\n\t\t<span class=\"number opaque\" data-short-number=\"{}\"></span></div></html>",
        score_token
    )
}

#[test]
fn find_score_reads_reputation_token() {
    let resolver = ScoreResolver::new().unwrap();
    assert_eq!(resolver.find_score(&profile_body("120")), Some(120));
    assert_eq!(resolver.find_score("<html>no reputation here</html>"), None);
}

#[test]
fn unparsable_token_counts_as_zero_without_retry() {
    let resolver = ScoreResolver::new().unwrap();
    assert_eq!(resolver.find_score(&profile_body("1.2K")), Some(0));
    let outcome = resolver.resolve(Region::Eune, &profile_body("1.2K"), false);
    assert_eq!(outcome, ResolveOutcome::Resolved { score: 0 });
}

#[test]
fn miss_then_hit_retries_exactly_once() {
    let resolver = ScoreResolver::new().unwrap();
    let miss = "<html>nothing</html>";
    let hit = profile_body("300");
    let first = resolver.resolve(Region::Eune, miss, false);
    assert_eq!(first, ResolveOutcome::Retry { region: Region::Euw });
    let second = resolver.resolve(Region::Euw, &hit, true);
    assert_eq!(second, ResolveOutcome::Resolved { score: 300 });
}

#[test]
fn double_miss_settles_on_zero_after_one_retry() {
    let resolver = ScoreResolver::new().unwrap();
    let miss = "<html>nothing</html>";
    let first = resolver.resolve(Region::Euw, miss, false);
    assert_eq!(first, ResolveOutcome::Retry { region: Region::Eune });
    let second = resolver.resolve(Region::Eune, miss, true);
    assert_eq!(second, ResolveOutcome::Resolved { score: 0 });
    // A retry step always settles, whatever the body holds: never two retries.
    let third = resolver.resolve(Region::Eune, &profile_body("5"), true);
    assert!(matches!(third, ResolveOutcome::Resolved { .. }));
}
