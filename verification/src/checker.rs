//! The concurrent version checker's decision logic: one remote query per
//! installed package is issued by the caller, and each response is judged
//! here; failed items are dropped, and the batch result keeps exactly the
//! items that need an update, in whatever order the responses arrived.

use vstd::prelude::*;

use crate::index::find_from;
use crate::jsonparse::{parse_version_response, spec_parse_response};
use crate::record::{record_views, InstalledPackage, InstalledV};
use crate::text::str_eq;

verus! {

/// One judged freshness check: the installed package, the latest version
/// the remote service reported for it, and whether they differ.
pub struct UpdateCheck {
    pub package: InstalledPackage,
    pub latest_version: String,
    pub needs_update: bool,
}

/// The mathematical value of an [`UpdateCheck`].
pub ghost struct UpdateCheckV {
    pub package: InstalledV,
    pub latest_version: Seq<char>,
    pub needs_update: bool,
}

impl View for UpdateCheck {
    type V = UpdateCheckV;

    open spec fn view(&self) -> UpdateCheckV {
        UpdateCheckV {
            package: self.package@,
            latest_version: self.latest_version@,
            needs_update: self.needs_update,
        }
    }
}

/// The views of a sequence of update checks.
pub open spec fn check_views(s: Seq<UpdateCheck>) -> Seq<UpdateCheckV> {
    s.map_values(|c: UpdateCheck| c@)
}

/// What one response decides for one package: nothing when the response
/// does not parse or names no record for the package, else the latest
/// version and whether it differs from the installed one.
pub open spec fn spec_evaluate(p: InstalledV, body: Seq<char>) -> Option<UpdateCheckV> {
    match spec_parse_response(body) {
        None => None::<UpdateCheckV>,
        Some(rs) => match find_from(rs, p.name, 0) {
            None => None::<UpdateCheckV>,
            Some(r) => Some(
                UpdateCheckV {
                    package: p,
                    latest_version: r.version,
                    needs_update: r.version != p.version,
                },
            ),
        },
    }
}

/// Judges one version-query response for one installed package. A
/// response that does not parse, or that carries no record for the
/// package, yields nothing — the item is dropped, never an error.
pub fn evaluate_version_response(package: &InstalledPackage, body: &str) -> (r: Option<UpdateCheck>)
    ensures
        match r {
            Some(c) => spec_evaluate(package@, body@) == Some(c@),
            None => spec_evaluate(package@, body@) is None,
        },
{
    let records = match parse_version_response(body) {
        None => {
            return None;
        },
        Some(rs) => rs,
    };
    let ghost rs_views = record_views(records@);
    let mut j: usize = 0;
    while j < records.len()
        invariant
            rs_views == record_views(records@),
            spec_parse_response(body@) == Some(rs_views),
            j <= rs_views.len(),
            find_from(rs_views, package@.name, 0) == find_from(rs_views, package@.name, j as int),
        decreases rs_views.len() - j,
    {
        proof {
            assert(rs_views[j as int] == records@[j as int]@);
        }
        if str_eq(records[j].name.as_str(), package.name.as_str()) {
            let rec = &records[j];
            let needs_update = !str_eq(rec.version.as_str(), package.version.as_str());
            proof {
                assert(find_from(rs_views, package@.name, j as int) == Some(rs_views[j as int]));
            }
            return Some(
                UpdateCheck {
                    package: package.duplicate(),
                    latest_version: rec.version.clone(),
                    needs_update,
                },
            );
        }
        j = j + 1;
    }
    None
}

/// The checks that called for an update, in arrival order: failed items
/// (nothing) and fresh items are left out.
pub open spec fn spec_updates_needed(results: Seq<Option<UpdateCheckV>>) -> Seq<UpdateCheckV>
    decreases results.len(),
{
    if results.len() == 0 {
        Seq::<UpdateCheckV>::empty()
    } else {
        let prev = spec_updates_needed(results.drop_last());
        match results.last() {
            Some(c) => if c.needs_update {
                prev.push(c)
            } else {
                prev
            },
            None => prev,
        }
    }
}

/// The views of a sequence of optional update checks.
pub open spec fn opt_check_views(s: Seq<Option<UpdateCheck>>) -> Seq<Option<UpdateCheckV>> {
    s.map_values(
        |c: Option<UpdateCheck>|
            match c {
                Some(x) => Some(x@),
                None => None::<UpdateCheckV>,
            },
    )
}

/// Collects a finished batch: keeps exactly the successfully judged
/// items that need an update, in the order the batch delivered them;
/// failed items are dropped silently.
pub fn check_for_updates(results: Vec<Option<UpdateCheck>>) -> (r: Vec<UpdateCheck>)
    ensures
        check_views(r@) == spec_updates_needed(opt_check_views(results@)),
{
    let ghost rv = opt_check_views(results@);
    let mut out: Vec<UpdateCheck> = Vec::new();
    proof {
        assert(check_views(out@) =~= Seq::<UpdateCheckV>::empty());
        assert(rv.subrange(0, 0) =~= Seq::<Option<UpdateCheckV>>::empty());
    }
    let mut i: usize = 0;
    while i < results.len()
        invariant
            rv == opt_check_views(results@),
            i <= rv.len(),
            check_views(out@) == spec_updates_needed(rv.subrange(0, i as int)),
        decreases rv.len() - i,
    {
        let item = &results[i];
        proof {
            assert(rv[i as int] == (match results@[i as int] {
                Some(x) => Some(x@),
                None => None::<UpdateCheckV>,
            }));
        }
        match item {
            Some(c) => {
                if c.needs_update {
                    let ghost old_out = out@;
                    out.push(
                        UpdateCheck {
                            package: c.package.duplicate(),
                            latest_version: c.latest_version.clone(),
                            needs_update: c.needs_update,
                        },
                    );
                    proof {
                        assert(check_views(out@) =~= check_views(old_out).push(c@));
                    }
                }
            },
            None => {},
        }
        i = i + 1;
        proof {
            let pre = rv.subrange(0, i as int);
            assert(pre.drop_last() =~= rv.subrange(0, i as int - 1));
            assert(pre.last() == rv[i as int - 1]);
        }
    }
    proof {
        assert(rv.subrange(0, rv.len() as int) =~= rv);
    }
    out
}

/// Every item of a collected batch needed an update, and came from one
/// of the successfully judged results.
pub proof fn lemma_updates_needed_members(results: Seq<Option<UpdateCheckV>>, j: int)
    requires
        0 <= j < spec_updates_needed(results).len(),
    ensures
        spec_updates_needed(results)[j].needs_update,
        exists|i: int|
            0 <= i < results.len() && results[i] == Some(spec_updates_needed(results)[j]),
    decreases results.len(),
{
    if results.len() > 0 {
        let prev = spec_updates_needed(results.drop_last());
        if j < prev.len() {
            lemma_updates_needed_members(results.drop_last(), j);
            let i = choose|i: int|
                0 <= i < results.drop_last().len() && results.drop_last()[i] == Some(
                    spec_updates_needed(results)[j],
                );
            assert(results[i] == Some(spec_updates_needed(results)[j]));
        } else {
            assert(results[results.len() - 1] == Some(spec_updates_needed(results)[j]));
        }
    }
}

} // verus!
