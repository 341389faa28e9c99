use boards_count::CommentNode;
use boards_count::CommentTreeExtractor;
use boards_count::ListingScanner;
use boards_count::RankingAggregator;
use boards_count::Region;
use boards_count::ResolveOutcome;
use boards_count::ScoreRecord;
use boards_count::ScoreResolver;
use boards_count::format_line;
use boards_count::render_ranking;

fn node(author: &str, replies: Vec<CommentNode>) -> CommentNode {
    CommentNode { author: author.to_string(), replies }
}

fn record(name: &str, score: u64) -> ScoreRecord {
    ScoreRecord { name: name.to_string(), score }
}

#[test]
fn format_line_exact() {
    assert_eq!(format_line(1, "B", 300), "1. B - 300\r\n");
    assert_eq!(format_line(12, "Gamma Ray", 0), "12. Gamma Ray - 0\r\n");
}

#[test]
fn aggregate_filters_sorts_and_ranks() {
    // Scores {A:120, B:300, C:300, D:0}: B before C by discovery order,
    // D absent entirely.
    let records = vec![
        record("A", 120),
        record("B", 300),
        record("C", 300),
        record("D", 0),
    ];
    let entries = RankingAggregator::aggregate(&records);
    assert_eq!(entries.len(), 3);
    assert_eq!(entries[0].rank, 1);
    assert_eq!(entries[0].name, "B");
    assert_eq!(entries[0].score, 300);
    assert_eq!(entries[1].rank, 2);
    assert_eq!(entries[1].name, "C");
    assert_eq!(entries[1].score, 300);
    assert_eq!(entries[2].rank, 3);
    assert_eq!(entries[2].name, "A");
    assert_eq!(entries[2].score, 120);
    let rendered = render_ranking(&entries);
    assert_eq!(rendered, "1. B - 300\r\n2. C - 300\r\n3. A - 120\r\n");
}

#[test]
fn aggregate_output_is_sorted_nonincreasing_without_zeroes() {
    let records = vec![
        record("p", 5),
        record("q", 900),
        record("r", 0),
        record("s", 17),
        record("t", 900),
        record("u", 1),
    ];
    let entries = RankingAggregator::aggregate(&records);
    assert_eq!(entries.len(), 5);
    for i in 0..entries.len() {
        assert_ne!(entries[i].score, 0);
        assert_eq!(entries[i].rank, i + 1);
        if i > 0 {
            assert!(entries[i - 1].score >= entries[i].score);
        }
    }
    assert_eq!(entries[0].name, "q");
    assert_eq!(entries[1].name, "t");
}

fn listing_body(pairs: &[(&str, &str)]) -> String {
    let mut out = String::new();
    for (app, disc) in pairs {
        out.push_str(&format!(
            "data-application-id=\\\"{}\\\" data-discussion-id=\\\"{}\\\" ",
            app, disc
        ));
    }
    out
}

fn profile_body(score_token: &str) -> String {
    format!(
        "<div class=\"lifetime-upvotes\">\n\t\t<span class=\"number opaque\" data-short-number=\"{}\">",
        score_token
    )
}

/// A fixed transport: listing pages, one discussion forest per thread
/// identifier, and profile bodies per (region, name).
struct Fixture {
    pages: Vec<String>,
}

impl Fixture {
    fn new() -> Fixture {
        Fixture {
            pages: vec![
                listing_body(&[("app1", "disc1")]),
                listing_body(&[("app1", "disc2")]),
            ],
        }
    }

    fn forest_for(&self, discussion_id: &str) -> Vec<CommentNode> {
        if discussion_id == "disc1" {
            vec![node("A", vec![node("B", vec![node("C", vec![])])])]
        } else {
            vec![node("A", vec![]), node("D", vec![])]
        }
    }

    fn profile_for(&self, region: Region, name: &str) -> String {
        match (region, name) {
            (Region::Eune, "A") => profile_body("120"),
            (Region::Eune, "B") => profile_body("300"),
            (Region::Euw, "C") => profile_body("300"),
            _ => "<html>not found</html>".to_string(),
        }
    }

    /// The whole batch against the fixed transport, as the driver runs it.
    fn run(&self) -> String {
        let scanner = ListingScanner::new().unwrap();
        let resolver = ScoreResolver::new().unwrap();
        let pairs = scanner.scan(&self.pages).unwrap();
        let mut names: Vec<String> = Vec::new();
        for pair in &pairs {
            let forest = self.forest_for(&pair.discussion_id);
            CommentTreeExtractor::extract(&forest, &mut names);
        }
        let mut records: Vec<ScoreRecord> = Vec::new();
        for name in &names {
            let body = self.profile_for(Region::Eune, name);
            let score = match resolver.resolve(Region::Eune, &body, false) {
                ResolveOutcome::Resolved { score } => score,
                ResolveOutcome::Retry { region } => {
                    let body2 = self.profile_for(region, name);
                    match resolver.resolve(region, &body2, true) {
                        ResolveOutcome::Resolved { score } => score,
                        ResolveOutcome::Retry { .. } => unreachable!(),
                    }
                }
            };
            records.push(ScoreRecord { name: name.clone(), score });
        }
        let entries = RankingAggregator::aggregate(&records);
        render_ranking(&entries)
    }
}

#[test]
fn pipeline_resolves_across_mirrors_and_ranks() {
    // A and B are found on the primary mirror, C only on the alternate,
    // D on neither: D is excluded, ties cannot arise here.
    let fixture = Fixture::new();
    let out = fixture.run();
    assert_eq!(out, "1. B - 300\r\n2. C - 300\r\n3. A - 120\r\n");
}

#[test]
fn pipeline_twice_on_fixed_inputs_is_byte_identical() {
    let fixture = Fixture::new();
    let first = fixture.run();
    let second = fixture.run();
    assert_eq!(first.as_bytes(), second.as_bytes());
}
