//! Scanning listing pages for paired thread identifiers.

use crate::rx::group1_all;
use crate::rx::regex_group1_all;
use crate::rx::regex_new;
use crate::rx::regex_source;
use vstd::prelude::*;

verus! {

/// The pattern of an application-id token, an attribute-style pair embedded
/// as escaped HTML inside a listing page's JSON payload.
pub open spec fn app_id_pattern() -> Seq<char> {
    r#"data-application-id=\\"(.*?)\\""#@
}

/// The pattern of a discussion-id token, embedded the same way.
pub open spec fn disc_id_pattern() -> Seq<char> {
    r#"data-discussion-id=\\"(.*?)\\""#@
}

/// An ordered identifier pair addressing one discussion thread.
pub struct ThreadIdentifier {
    pub application_id: String,
    pub discussion_id: String,
}

/// The two identifier streams scanned from the listing pages came out with
/// different lengths: the pages have an unexpected shape, and the run is
/// considered corrupted. Fatal, never retried.
#[derive(Clone, Copy, PartialEq, Eq, Structural, Debug)]
pub struct ScanMismatch;

/// All group-one matches of `pattern` across a sequence of page bodies, in
/// page order and, within a page, in order of appearance.
pub open spec fn concat_group1(pattern: Seq<char>, bodies: Seq<Seq<char>>) -> Seq<Seq<char>>
    decreases bodies.len(),
{
    if bodies.len() == 0 {
        Seq::empty()
    } else {
        concat_group1(pattern, bodies.drop_last()) + group1_all(pattern, bodies.last())
    }
}

/// Extracts paired thread identifiers from fetched listing page bodies.
pub struct ListingScanner {
    app_re: regex::Regex,
    disc_re: regex::Regex,
}

impl ListingScanner {
    /// The scanner holds one compiled regex for each of the two token
    /// patterns.
    pub closed spec fn wf(&self) -> bool {
        regex_source(self.app_re) == app_id_pattern() && regex_source(self.disc_re)
            == disc_id_pattern()
    }

    /// Compiles the two fixed token patterns; `None` only if the regex
    /// engine rejects one of them.
    pub fn new() -> (r: Option<ListingScanner>)
        ensures
            r matches Some(s) ==> s.wf(),
    {
        let app_re = regex_new(r#"data-application-id=\\"(.*?)\\""#);
        let disc_re = regex_new(r#"data-discussion-id=\\"(.*?)\\""#);
        match (app_re, disc_re) {
            (Some(a), Some(d)) => Some(ListingScanner { app_re: a, disc_re: d }),
            _ => None,
        }
    }

    /// Scans one fetched body per listing page and zips the application-id
    /// and discussion-id token streams positionally into identifier pairs.
    ///
    /// Succeeds exactly when the two streams are equal in length; unequal
    /// streams are the fatal `ScanMismatch`. No deduplication happens here.
    pub fn scan(&self, bodies: &Vec<String>) -> (r: Result<Vec<ThreadIdentifier>, ScanMismatch>)
        requires
            self.wf(),
        ensures
            r is Ok <==> concat_group1(app_id_pattern(), bodies.deep_view()).len() == concat_group1(
                disc_id_pattern(),
                bodies.deep_view(),
            ).len(),
            r matches Ok(v) ==> {
                let a = concat_group1(app_id_pattern(), bodies.deep_view());
                let d = concat_group1(disc_id_pattern(), bodies.deep_view());
                &&& v@.len() == a.len()
                &&& forall|i: int|
                    0 <= i < v@.len() ==> (#[trigger] v@[i]).application_id@ == a[i]
                        && v@[i].discussion_id@ == d[i]
            },
    {
        let ghost views = bodies.deep_view();
        let mut a_ids: Vec<String> = Vec::new();
        let mut d_ids: Vec<String> = Vec::new();
        proof {
            assert(views.take(0) =~= Seq::<Seq<char>>::empty());
            assert(concat_group1(app_id_pattern(), views.take(0)) == Seq::<Seq<char>>::empty());
            assert(concat_group1(disc_id_pattern(), views.take(0)) == Seq::<Seq<char>>::empty());
            assert(a_ids.deep_view() =~= Seq::<Seq<char>>::empty());
            assert(d_ids.deep_view() =~= Seq::<Seq<char>>::empty());
        }
        let mut p: usize = 0;
        while p < bodies.len()
            invariant
                0 <= p <= bodies.len(),
                views == bodies.deep_view(),
                views.len() == bodies@.len(),
                self.wf(),
                a_ids.deep_view() == concat_group1(app_id_pattern(), views.take(p as int)),
                d_ids.deep_view() == concat_group1(disc_id_pattern(), views.take(p as int)),
            decreases bodies.len() - p,
        {
            let body = &bodies[p];
            proof {
                assert(views.take(p + 1).drop_last() =~= views.take(p as int));
                assert(views.take(p + 1).last() == body@);
            }
            let mut a_new = regex_group1_all(&self.app_re, body.as_str());
            let ghost a_before = a_ids.deep_view();
            a_ids.append(&mut a_new);
            proof {
                assert(a_ids.deep_view() =~= a_before + group1_all(app_id_pattern(), body@));
            }
            let mut d_new = regex_group1_all(&self.disc_re, body.as_str());
            let ghost d_before = d_ids.deep_view();
            d_ids.append(&mut d_new);
            proof {
                assert(d_ids.deep_view() =~= d_before + group1_all(disc_id_pattern(), body@));
            }
            p = p + 1;
        }
        proof {
            assert(views.take(views.len() as int) =~= views);
        }
        if a_ids.len() != d_ids.len() {
            return Err(ScanMismatch);
        }
        let mut pairs: Vec<ThreadIdentifier> = Vec::new();
        let mut i: usize = 0;
        while i < a_ids.len()
            invariant
                0 <= i <= a_ids.len(),
                a_ids.len() == d_ids.len(),
                pairs@.len() == i,
                forall|j: int|
                    0 <= j < i ==> (#[trigger] pairs@[j]).application_id@ == a_ids.deep_view()[j]
                        && pairs@[j].discussion_id@ == d_ids.deep_view()[j],
            decreases a_ids.len() - i,
        {
            let pair = ThreadIdentifier {
                application_id: a_ids[i].clone(),
                discussion_id: d_ids[i].clone(),
            };
            pairs.push(pair);
            i = i + 1;
        }
        Ok(pairs)
    }
}

} // verus!
