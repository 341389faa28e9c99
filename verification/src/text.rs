//! Participant-name normalization and request-path building.

use crate::numbers::dec_str;
use crate::numbers::u64_to_string;
use crate::region::Region;
use vstd::prelude::*;
use vstd::string::StrSliceExecFns;
use vstd::string::StringExecFns;

verus! {

/// A raw author name with every literal quote character removed: the form
/// under which participants are deduplicated across the whole run.
pub open spec fn strip_quotes(s: Seq<char>) -> Seq<char>
    decreases s.len(),
{
    if s.len() == 0 {
        Seq::empty()
    } else if s.last() == '"' {
        strip_quotes(s.drop_last())
    } else {
        strip_quotes(s.drop_last()).push(s.last())
    }
}

/// Normalizes a raw author name by stripping literal quote characters.
pub fn normalize_name(s: &str) -> (r: String)
    ensures
        r@ == strip_quotes(s@),
{
    let n = s.unicode_len();
    let mut out = String::new();
    let mut i: usize = 0;
    while i < n
        invariant
            0 <= i <= n,
            n == s@.len(),
            out@ == strip_quotes(s@.subrange(0, i as int)),
        decreases n - i,
    {
        let c = s.get_char(i);
        proof {
            let p = s@.subrange(0, i + 1);
            assert(p.drop_last() =~= s@.subrange(0, i as int));
            assert(p.last() == s@[i as int]);
        }
        if c != '"' {
            let piece = s.substring_char(i, i + 1);
            out.append(piece);
            proof {
                assert(out@ =~= strip_quotes(s@.subrange(0, i as int)).push(s@[i as int]));
            }
        }
        i = i + 1;
    }
    proof {
        assert(s@.subrange(0, n as int) =~= s@);
    }
    out
}

/// The path addressing one discussion's structured comment data.
pub open spec fn spec_discussion_path(app_id: Seq<char>, disc_id: Seq<char>) -> Seq<char> {
    "/api/"@ + app_id + "/discussions/"@ + disc_id
}

pub fn discussion_path(app_id: &str, disc_id: &str) -> (r: String)
    ensures
        r@ == spec_discussion_path(app_id@, disc_id@),
{
    let s = String::from_str("/api/");
    let s = s.concat(app_id);
    let s = s.concat("/discussions/");
    s.concat(disc_id)
}

/// The path of one listing page: a pagination offset of fifty threads per
/// page and a fixed most-recent sort.
pub open spec fn spec_listing_page_path(endpoint: Seq<char>, page: nat) -> Seq<char> {
    endpoint + "?num_loaded="@ + dec_str(page * 50) + "&sort_type=recent"@
}

pub fn listing_page_path(endpoint: &str, page: u64) -> (r: String)
    requires
        page * 50 <= u64::MAX,
    ensures
        r@ == spec_listing_page_path(endpoint@, page as nat),
{
    let offset: u64 = page * 50;
    let s = String::from_str(endpoint);
    let s = s.concat("?num_loaded=");
    let off = u64_to_string(offset);
    let s = s.concat(off.as_str());
    s.concat("&sort_type=recent")
}

/// The path of a participant's public profile page on a region's mirror.
pub open spec fn spec_profile_path(region: Region, name: Seq<char>) -> Seq<char> {
    "/en/player/"@ + region.spec_code() + "/"@ + name
}

pub fn profile_path(region: Region, name: &str) -> (r: String)
    ensures
        r@ == spec_profile_path(region, name@),
{
    let s = String::from_str("/en/player/");
    let s = s.concat(region.code());
    let s = s.concat("/");
    s.concat(name)
}

/// The fixed host name pattern of a region's mirror.
pub open spec fn spec_host_name(region: Region) -> Seq<char> {
    "boards."@ + region.spec_code() + ".leagueoflegends.com"@
}

pub fn host_name(region: Region) -> (r: String)
    ensures
        r@ == spec_host_name(region),
{
    let s = String::from_str("boards.");
    let s = s.concat(region.code());
    s.concat(".leagueoflegends.com")
}

} // verus!
