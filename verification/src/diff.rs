//! The diff engine: reconciles the locally installed package list with
//! the sharded index into the outdated set, and names the orphans.

use vstd::prelude::*;

use crate::index::{query_exact_package, ShardedIndex};
use crate::record::{
    installed_views, pair_views, InstalledPackage, InstalledV, OutdatedPair, OutdatedPairV,
};
use crate::text::str_eq;

verus! {

/// The outdated set: one pair per installed package whose record in the
/// index carries a different version string, in installed order. Any
/// difference counts, downgrades included; packages without a record are
/// skipped.
pub open spec fn spec_outdated(installed: Seq<InstalledV>, db: &ShardedIndex) -> Seq<OutdatedPairV>
    decreases installed.len(),
{
    if installed.len() == 0 {
        Seq::<OutdatedPairV>::empty()
    } else {
        let prev = spec_outdated(installed.drop_last(), db);
        let last = installed.last();
        match db.spec_exact(last.name) {
            None => prev,
            Some(r) => if r.version != last.version {
                prev.push(OutdatedPairV { installed: last, remote: r })
            } else {
                prev
            },
        }
    }
}

/// A name ends in the known debug-package suffix.
pub open spec fn has_debug_suffix(name: Seq<char>) -> bool {
    name.len() >= 5 && name.subrange(name.len() - 5, name.len() as int) == "debug"@
}

/// The orphans worth a warning: installed packages without a record in
/// the index, except those bearing the debug suffix, in installed order.
pub open spec fn spec_orphans(installed: Seq<InstalledV>, db: &ShardedIndex) -> Seq<InstalledV>
    decreases installed.len(),
{
    if installed.len() == 0 {
        Seq::<InstalledV>::empty()
    } else {
        let prev = spec_orphans(installed.drop_last(), db);
        let last = installed.last();
        if db.spec_exact(last.name) is None && !has_debug_suffix(last.name) {
            prev.push(last)
        } else {
            prev
        }
    }
}

/// Whether `name` ends in the debug-package suffix.
fn ends_with_debug(name: &str) -> (r: bool)
    ensures
        r == has_debug_suffix(name@),
{
    proof {
        reveal_strlit("debug");
    }
    let n = name.unicode_len();
    if n < 5 {
        return false;
    }
    let r = name.get_char(n - 5) == 'd' && name.get_char(n - 4) == 'e' && name.get_char(n - 3)
        == 'b' && name.get_char(n - 2) == 'u' && name.get_char(n - 1) == 'g';
    proof {
        if r {
            assert(name@.subrange(name@.len() - 5, name@.len() as int) =~= "debug"@);
        } else {
            let sub = name@.subrange(name@.len() - 5, name@.len() as int);
            if sub == "debug"@ {
                assert(name@[name@.len() - 5] == sub[0] && sub[0] == 'd');
                assert(name@[name@.len() - 4] == sub[1] && sub[1] == 'e');
                assert(name@[name@.len() - 3] == sub[2] && sub[2] == 'b');
                assert(name@[name@.len() - 2] == sub[3] && sub[3] == 'u');
                assert(name@[name@.len() - 1] == sub[4] && sub[4] == 'g');
                assert(false);
            }
        }
    }
    r
}

/// Computes the outdated set: for each installed package, the exact
/// record of the same name is looked up, and a pair is emitted exactly
/// when one exists and its version differs by string inequality. Result
/// order follows the installed input order.
pub fn get_outdated_packages(
    installed_packages: &Vec<InstalledPackage>,
    database: &ShardedIndex,
) -> (r: Vec<OutdatedPair>)
    requires
        database.wf(),
        forall|i: int|
            0 <= i < installed_packages@.len() ==> (#[trigger] installed_packages@[i]).wf(),
    ensures
        pair_views(r@) == spec_outdated(installed_views(installed_packages@), database),
{
    let ghost ins = installed_views(installed_packages@);
    let mut out: Vec<OutdatedPair> = Vec::new();
    proof {
        assert(pair_views(out@) =~= Seq::<OutdatedPairV>::empty());
        assert(ins.subrange(0, 0) =~= Seq::<InstalledV>::empty());
    }
    let mut i: usize = 0;
    while i < installed_packages.len()
        invariant
            database.wf(),
            ins == installed_views(installed_packages@),
            forall|t: int|
                0 <= t < installed_packages@.len() ==> (#[trigger] installed_packages@[t]).wf(),
            i <= ins.len(),
            pair_views(out@) == spec_outdated(ins.subrange(0, i as int), database),
        decreases ins.len() - i,
    {
        let package = &installed_packages[i];
        proof {
            assert(ins[i as int] == package@);
        }
        match query_exact_package(package.name.as_str(), database) {
            None => {},
            Some(db_package) => {
                if !str_eq(db_package.version.as_str(), package.version.as_str()) {
                    let ghost old_out = out@;
                    out.push(
                        OutdatedPair {
                            installed: package.duplicate(),
                            remote: db_package.duplicate(),
                        },
                    );
                    proof {
                        assert(pair_views(out@) =~= pair_views(old_out).push(
                            OutdatedPairV { installed: package@, remote: db_package@ },
                        ));
                    }
                }
            },
        }
        i = i + 1;
        proof {
            let pre = ins.subrange(0, i as int);
            assert(pre.drop_last() =~= ins.subrange(0, i as int - 1));
            assert(pre.last() == ins[i as int - 1]);
        }
    }
    proof {
        assert(ins.subrange(0, ins.len() as int) =~= ins);
    }
    out
}

/// Names the installed packages that no longer have a record in the
/// index and deserve a warning; names ending in the debug suffix are
/// silently ignored as a known noise source.
pub fn orphaned_packages(
    installed_packages: &Vec<InstalledPackage>,
    database: &ShardedIndex,
) -> (r: Vec<InstalledPackage>)
    requires
        database.wf(),
        forall|i: int|
            0 <= i < installed_packages@.len() ==> (#[trigger] installed_packages@[i]).wf(),
    ensures
        installed_views(r@) == spec_orphans(installed_views(installed_packages@), database),
{
    let ghost ins = installed_views(installed_packages@);
    let mut out: Vec<InstalledPackage> = Vec::new();
    proof {
        assert(installed_views(out@) =~= Seq::<InstalledV>::empty());
        assert(ins.subrange(0, 0) =~= Seq::<InstalledV>::empty());
    }
    let mut i: usize = 0;
    while i < installed_packages.len()
        invariant
            database.wf(),
            ins == installed_views(installed_packages@),
            forall|t: int|
                0 <= t < installed_packages@.len() ==> (#[trigger] installed_packages@[t]).wf(),
            i <= ins.len(),
            installed_views(out@) == spec_orphans(ins.subrange(0, i as int), database),
        decreases ins.len() - i,
    {
        let package = &installed_packages[i];
        proof {
            assert(ins[i as int] == package@);
        }
        let absent = match query_exact_package(package.name.as_str(), database) {
            None => true,
            Some(_) => false,
        };
        if absent && !ends_with_debug(package.name.as_str()) {
            let ghost old_out = out@;
            out.push(package.duplicate());
            proof {
                assert(installed_views(out@) =~= installed_views(old_out).push(package@));
            }
        }
        i = i + 1;
        proof {
            let pre = ins.subrange(0, i as int);
            assert(pre.drop_last() =~= ins.subrange(0, i as int - 1));
            assert(pre.last() == ins[i as int - 1]);
        }
    }
    proof {
        assert(ins.subrange(0, ins.len() as int) =~= ins);
    }
    out
}

} // verus!
