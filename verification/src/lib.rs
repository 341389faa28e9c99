//! Batch ranking of forum participants by public reputation score.
//!
//! The library scans paginated listing pages for paired thread identifiers,
//! extracts the distinct participant names of arbitrarily deep comment
//! forests, resolves each participant's reputation with one cross-mirror
//! retry, and aggregates the results into a ranking sorted by score
//! descending, ties keeping discovery order. Fetching, argument handling and
//! the output file belong to the surrounding driver; every decision the
//! driver hands in here is verified.

mod comments;
mod listing;
mod numbers;
mod ranking;
mod region;
mod rx;
mod score;
mod text;

pub use comments::CommentNode;
pub use comments::CommentTreeExtractor;
pub use listing::ListingScanner;
pub use listing::ScanMismatch;
pub use listing::ThreadIdentifier;
pub use numbers::parse_u64;
pub use numbers::u64_to_string;
pub use ranking::format_line;
pub use ranking::render_ranking;
pub use ranking::RankingAggregator;
pub use ranking::RankingEntry;
pub use ranking::ScoreRecord;
pub use region::Region;
pub use score::ResolveOutcome;
pub use score::ScoreResolver;
pub use text::discussion_path;
pub use text::host_name;
pub use text::listing_page_path;
pub use text::normalize_name;
pub use text::profile_path;
