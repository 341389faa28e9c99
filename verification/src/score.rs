//! Reputation lookup on a profile page body, with the one cross-mirror retry.

use crate::numbers::all_digits;
use crate::numbers::digits_val;
use crate::numbers::parse_u64;
use crate::region::Region;
use crate::rx::group1_first;
use crate::rx::regex_group1_first;
use crate::rx::regex_new;
use crate::rx::regex_source;
use vstd::prelude::*;

verus! {

/// The pattern of the single numeric token in a profile page's
/// reputation-display fragment.
pub open spec fn points_pattern() -> Seq<char> {
    r#"lifetime-upvotes">\n\t\t<span class="number opaque" data-short-number="(.+)">"#@
}

/// The score a found reputation token stands for: its decimal value, or zero
/// when the token is not an unsigned integer in range. A failed parse is
/// recovered locally, never surfaced.
pub open spec fn token_score(tok: Seq<char>) -> nat {
    if tok.len() > 0 && all_digits(tok) && digits_val(tok) <= u64::MAX {
        digits_val(tok)
    } else {
        0
    }
}

/// What one profile page body yields: `None` when the reputation fragment is
/// absent (a miss, subject to retry), `Some` score when it is present.
pub open spec fn found_score(body: Seq<char>) -> Option<nat> {
    match group1_first(points_pattern(), body) {
        Some(tok) => Some(token_score(tok)),
        None => None,
    }
}

/// What one resolution step decides.
#[derive(Clone, Copy, PartialEq, Eq, Structural, Debug)]
pub enum ResolveOutcome {
    /// The participant's score is settled; a zero after a retry means
    /// "not found on either mirror".
    Resolved { score: u64 },
    /// A miss on the first-tried mirror: look once on the named region,
    /// which is always the single fixed alternate.
    Retry { region: Region },
}

/// One resolution step as a function of the fetched body alone.
pub open spec fn spec_resolve(region: Region, body: Seq<char>, is_retry: bool) -> ResolveOutcome {
    match found_score(body) {
        Some(v) => ResolveOutcome::Resolved { score: v as u64 },
        None => if is_retry {
            ResolveOutcome::Resolved { score: 0 }
        } else {
            ResolveOutcome::Retry { region: region.spec_other() }
        },
    }
}

/// Resolves a participant's reputation score from fetched profile page
/// bodies, retrying exactly once on the alternate mirror after a miss.
pub struct ScoreResolver {
    points_re: regex::Regex,
}

impl ScoreResolver {
    /// The resolver holds one compiled regex for the reputation token.
    pub closed spec fn wf(&self) -> bool {
        regex_source(self.points_re) == points_pattern()
    }

    /// Compiles the fixed reputation pattern; `None` only if the regex
    /// engine rejects it.
    pub fn new() -> (r: Option<ScoreResolver>)
        ensures
            r matches Some(s) ==> s.wf(),
    {
        match regex_new(
            r#"lifetime-upvotes">\n\t\t<span class="number opaque" data-short-number="(.+)">"#,
        ) {
            Some(re) => Some(ScoreResolver { points_re: re }),
            None => None,
        }
    }

    /// Scans one profile page body for the reputation token.
    pub fn find_score(&self, body: &str) -> (r: Option<u64>)
        requires
            self.wf(),
        ensures
            r is Some <==> found_score(body@) is Some,
            r matches Some(v) ==> found_score(body@) == Some(v as nat),
    {
        match regex_group1_first(&self.points_re, body) {
            Some(tok) => match parse_u64(tok.as_str()) {
                Some(v) => Some(v),
                None => Some(0),
            },
            None => None,
        }
    }

    /// Decides one resolution step from a fetched profile page body.
    ///
    /// On a hit the token's value is the score, an unparsable token counting
    /// as zero. On a miss with `is_retry` false the caller is sent once to
    /// the single alternate mirror; on a miss with `is_retry` true the score
    /// is settled as the sentinel zero. The caller performs the fetches and
    /// hands each body in.
    pub fn resolve(&self, region: Region, body: &str, is_retry: bool) -> (r: ResolveOutcome)
        requires
            self.wf(),
        ensures
            r == spec_resolve(region, body@, is_retry),
    {
        match self.find_score(body) {
            Some(v) => ResolveOutcome::Resolved { score: v },
            None => if is_retry {
                ResolveOutcome::Resolved { score: 0 }
            } else {
                ResolveOutcome::Retry { region: region.other() }
            },
        }
    }
}

/// A retry step always settles: whatever the second body holds, resolution
/// ends there, so a lookup never performs a second retry.
pub proof fn lemma_retry_always_settles(region: Region, body: Seq<char>)
    ensures
        spec_resolve(region, body, true) is Resolved,
{
}

/// A lookup that misses on its first region and hits on the alternate is
/// sent exactly once to that single alternate and returns the alternate's
/// value.
pub proof fn lemma_miss_then_hit(region: Region, body1: Seq<char>, body2: Seq<char>, v: nat)
    requires
        found_score(body1) is None,
        found_score(body2) == Some(v),
    ensures
        spec_resolve(region, body1, false) == (ResolveOutcome::Retry {
            region: region.spec_other(),
        }),
        spec_resolve(region.spec_other(), body2, true) == (ResolveOutcome::Resolved {
            score: v as u64,
        }),
{
}

/// A lookup that misses on both regions performs exactly one retry in all
/// and settles on the sentinel zero.
pub proof fn lemma_double_miss(region: Region, body1: Seq<char>, body2: Seq<char>)
    requires
        found_score(body1) is None,
        found_score(body2) is None,
    ensures
        spec_resolve(region, body1, false) == (ResolveOutcome::Retry {
            region: region.spec_other(),
        }),
        spec_resolve(region.spec_other(), body2, true) == (ResolveOutcome::Resolved { score: 0 }),
{
}

} // verus!
