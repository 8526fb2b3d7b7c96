//! Resolving the installation owned by the configured account: the
//! paginated listing is fetched at the edge, one page at a time; this
//! module decides what each fetched page means — a match, a further page to
//! fetch, or exhaustion, which is the "not found" error naming the owner.

use crate::strutil::str_eq;
use vstd::prelude::*;

verus! {

/// What the helper reads of one installation returned by the platform: the
/// identifier scoping the later token request, and the owning account's
/// login, the only field examined for matching.
pub struct Installation {
    pub id: u64,
    pub account_login: String,
}

impl Clone for Installation {
    fn clone(&self) -> (r: Self)
        ensures
            r.id == self.id,
            r.account_login@ == self.account_login@,
    {
        Installation { id: self.id, account_login: self.account_login.clone() }
    }
}

/// A failed resolution: the listing request itself failed (reported with
/// its cause), or every page was exhausted without a match (reported with
/// the owner searched for).
pub enum FindInstallationError {
    RequestFailed { cause: String },
    NotFound(String),
}

/// What to do after one fetched page: use the matching installation, fetch
/// the given next page, or — as the error — give up.
pub enum FindInstallationStep {
    Found(Installation),
    NextPage(u32),
}

/// The first position in the page whose owner login equals `owner` exactly
/// (matching is case-sensitive, and the first match wins).
pub open spec fn first_match(items: Seq<Installation>, owner: Seq<char>) -> Option<int>
    decreases items.len(),
{
    if items.len() == 0 {
        None
    } else if items[0].account_login@ == owner {
        Some(0)
    } else {
        match first_match(items.drop_first(), owner) {
            Some(i) => Some(i + 1),
            None => None,
        }
    }
}

pub proof fn lemma_first_match_props(items: Seq<Installation>, owner: Seq<char>)
    ensures
        match first_match(items, owner) {
            Some(i) => 0 <= i < items.len() && items[i].account_login@ == owner && forall|j: int|
                0 <= j < i ==> items[j].account_login@ != owner,
            None => forall|j: int| 0 <= j < items.len() ==> items[j].account_login@ != owner,
        },
    decreases items.len(),
{
    if items.len() > 0 && items[0].account_login@ != owner {
        let rest = items.drop_first();
        lemma_first_match_props(rest, owner);
        match first_match(items, owner) {
            Some(i) => {
                assert(first_match(rest, owner) == Some(i - 1));
                assert(items[i] == rest[i - 1]);
                assert forall|j: int| 0 <= j < i implies items[j].account_login@ != owner by {
                    if j > 0 {
                        assert(items[j] == rest[j - 1]);
                    }
                }
            },
            None => {
                assert forall|j: int|
                    0 <= j < items.len() implies items[j].account_login@ != owner by {
                    if j > 0 {
                        assert(items[j] == rest[j - 1]);
                    }
                }
            },
        }
    }
}

proof fn lemma_first_match_at(items: Seq<Installation>, owner: Seq<char>, i: int)
    requires
        0 <= i < items.len(),
        items[i].account_login@ == owner,
        forall|j: int| 0 <= j < i ==> items[j].account_login@ != owner,
    ensures
        first_match(items, owner) == Some(i),
    decreases items.len(),
{
    if i > 0 {
        let rest = items.drop_first();
        assert forall|j: int| 0 <= j < i - 1 implies rest[j].account_login@ != owner by {
            assert(rest[j] == items[j + 1]);
        }
        lemma_first_match_at(rest, owner, i - 1);
    }
}

/// The decision on one fetched page of installations. `page_i` is the
/// 0-indexed page just fetched and `number_of_pages` the total the server
/// reported for it, when it reported one. The first installation owned by
/// `owner` wins and no further page is asked for; with no match, the next
/// page is asked for unless the reported total (taken as the next page
/// number when the server reported none) says every page has been seen,
/// which is the "not found" error naming the owner.
pub fn find_installation(
    page_items: &Vec<Installation>,
    owner: &str,
    page_i: u32,
    number_of_pages: Option<u32>,
) -> (r: Result<FindInstallationStep, FindInstallationError>)
    requires
        page_i < u32::MAX,
    ensures
        match first_match(page_items@, owner@) {
            Some(i) => r matches Ok(FindInstallationStep::Found(inst)) && inst.id
                == page_items@[i].id && inst.account_login@ == page_items@[i].account_login@,
            None => {
                let next: int = page_i + 1;
                let total: int = match number_of_pages {
                    Some(t) => t as int,
                    None => next,
                };
                if total <= next {
                    r matches Err(FindInstallationError::NotFound(o)) && o@ == owner@
                } else {
                    r matches Ok(FindInstallationStep::NextPage(p)) && p == next
                }
            },
        },
{
    let n = page_items.len();
    let mut k: usize = 0;
    while k < n
        invariant
            0 <= k <= n,
            n == page_items@.len(),
            forall|j: int| 0 <= j < k ==> page_items@[j].account_login@ != owner@,
        decreases n - k,
    {
        let item = &page_items[k];
        if str_eq(item.account_login.as_str(), owner) {
            proof {
                lemma_first_match_at(page_items@, owner@, k as int);
            }
            return Ok(FindInstallationStep::Found(item.clone()));
        }
        k = k + 1;
    }
    proof {
        lemma_first_match_props(page_items@, owner@);
        if let Some(i) = first_match(page_items@, owner@) {
            assert(page_items@[i].account_login@ != owner@);
        }
    }
    let next = page_i + 1;
    let total = match number_of_pages {
        Some(t) => t,
        None => next,
    };
    if total <= next {
        Err(FindInstallationError::NotFound(owner.to_owned()))
    } else {
        Ok(FindInstallationStep::NextPage(next))
    }
}

} // verus!
