//! The query engine: fuzzy search over every shard with ranking by
//! popularity, and name-list lookups built on the exact query.

use vstd::prelude::*;

use vstd::seq_lib::lemma_multiset_commutative;

use crate::index::{query_exact_package, ShardedIndex};
use crate::record::{record_views, Record, RecordV};
use crate::text::{lower_of, lowercase, seq_contains_sub, str_contains};

verus! {

/// A record matches a search term when the lowercased term occurs in its
/// lowercased name or description.
pub open spec fn spec_matches(r: RecordV, term: Seq<char>) -> bool {
    seq_contains_sub(lower_of(r.name), lower_of(term)) || seq_contains_sub(
        lower_of(r.description),
        lower_of(term),
    )
}

/// The records of `rs` matching `term`, in order.
pub open spec fn filter_matches(rs: Seq<RecordV>, term: Seq<char>) -> Seq<RecordV>
    decreases rs.len(),
{
    if rs.len() == 0 {
        Seq::<RecordV>::empty()
    } else {
        let prev = filter_matches(rs.drop_last(), term);
        if spec_matches(rs.last(), term) {
            prev.push(rs.last())
        } else {
            prev
        }
    }
}

/// Every element of the match filter matches and comes from the input.
pub proof fn lemma_filter_matches_members(rs: Seq<RecordV>, term: Seq<char>, j: int)
    requires
        0 <= j < filter_matches(rs, term).len(),
    ensures
        spec_matches(filter_matches(rs, term)[j], term),
        exists|i: int| 0 <= i < rs.len() && rs[i] == filter_matches(rs, term)[j],
    decreases rs.len(),
{
    if rs.len() > 0 {
        let prev = filter_matches(rs.drop_last(), term);
        if j < prev.len() {
            lemma_filter_matches_members(rs.drop_last(), term, j);
            let i = choose|i: int|
                0 <= i < rs.drop_last().len() && rs.drop_last()[i] == filter_matches(rs, term)[j];
            assert(rs[i] == filter_matches(rs, term)[j]);
        } else {
            assert(rs[rs.len() - 1] == filter_matches(rs, term)[j]);
        }
    }
}

/// When everything matches, the match filter keeps the input unchanged.
pub proof fn lemma_filter_matches_all(rs: Seq<RecordV>, term: Seq<char>)
    requires
        forall|i: int| 0 <= i < rs.len() ==> spec_matches(#[trigger] rs[i], term),
    ensures
        filter_matches(rs, term) == rs,
    decreases rs.len(),
{
    if rs.len() > 0 {
        lemma_filter_matches_all(rs.drop_last(), term);
        assert(filter_matches(rs, term) =~= rs);
    } else {
        assert(filter_matches(rs, term) =~= rs);
    }
}

/// Inserting into a sequence inserts into its value multiset.
proof fn lemma_views_insert_multiset(s: Seq<Record>, pos: int, x: Record)
    requires
        0 <= pos <= s.len(),
    ensures
        record_views(s.insert(pos, x)).to_multiset() == record_views(s).to_multiset().insert(x@),
{
    broadcast use vstd::multiset::group_multiset_axioms;

    let sv = record_views(s);
    let xv = x@;
    s.insert_ensures(pos, x);
    sv.insert_ensures(pos, xv);
    assert(record_views(s.insert(pos, x)) =~= sv.insert(pos, xv));
    let a = sv.subrange(0, pos);
    let b = sv.subrange(pos, sv.len() as int);
    assert(sv.insert(pos, xv) == a.push(xv) + b);
    lemma_multiset_commutative(a.push(xv), b);
    vstd::seq_lib::to_multiset_build(a, xv);
    assert(sv =~= a + b);
    lemma_multiset_commutative(a, b);
    assert(a.to_multiset().insert(xv).add(b.to_multiset()) =~= a.to_multiset().add(
        b.to_multiset(),
    ).insert(xv));
}

/// A prefix of a sequence holds no value more often than the sequence.
proof fn lemma_prefix_submultiset(s: Seq<RecordV>, m: int)
    requires
        0 <= m <= s.len(),
    ensures
        forall|x: RecordV|
            #[trigger] s.subrange(0, m).to_multiset().count(x) <= s.to_multiset().count(x),
{
    broadcast use vstd::multiset::group_multiset_axioms;

    assert(s =~= s.subrange(0, m) + s.subrange(m, s.len() as int));
    lemma_multiset_commutative(s.subrange(0, m), s.subrange(m, s.len() as int));
}

/// Sorts records by popularity, highest first; the collection of record
/// values is unchanged.
fn sort_by_popularity(input: Vec<Record>) -> (r: Vec<Record>)
    ensures
        record_views(r@).to_multiset() == record_views(input@).to_multiset(),
        forall|a: int, b: int|
            0 <= a < b < r@.len() ==> #[trigger] r@[a].popularity >= #[trigger] r@[b].popularity,
        r@.len() == input@.len(),
    decreases input@.len(),
{
    broadcast use vstd::seq_lib::group_to_multiset_ensures;

    let ghost input_views = record_views(input@);
    let mut rest = input;
    let mut out: Vec<Record> = Vec::new();
    proof {
        assert(record_views(out@) =~= Seq::<RecordV>::empty());
        assert(record_views(out@).to_multiset().add(record_views(rest@).to_multiset())
            =~= record_views(rest@).to_multiset());
    }
    while rest.len() > 0
        invariant
            record_views(out@).to_multiset().add(record_views(rest@).to_multiset())
                == input_views.to_multiset(),
            out@.len() + rest@.len() == input_views.len(),
            input_views.len() == input_views.to_multiset().len(),
            forall|a: int, b: int|
                0 <= a < b < out@.len() ==> #[trigger] out@[a].popularity
                    >= #[trigger] out@[b].popularity,
        decreases rest@.len(),
    {
        let ghost rest_old = rest@;
        let rec = match rest.pop() {
            Some(rec) => rec,
            None => {
                proof {
                    assert(false);
                }
                return out;
            },
        };
        proof {
            assert(record_views(rest_old) =~= record_views(rest@).push(rec@));
            vstd::seq_lib::to_multiset_build(record_views(rest@), rec@);
        }
        let mut pos: usize = 0;
        while pos < out.len() && out[pos].popularity >= rec.popularity
            invariant
                pos <= out@.len(),
                forall|t: int| 0 <= t < pos ==> #[trigger] out@[t].popularity >= rec.popularity,
            decreases out@.len() - pos,
        {
            pos = pos + 1;
        }
        let ghost out_old = out@;
        out.insert(pos, rec);
        proof {
            lemma_views_insert_multiset(out_old, pos as int, rec);
            out_old.insert_ensures(pos as int, rec);
            broadcast use vstd::multiset::group_multiset_axioms;

            assert(record_views(out@).to_multiset().add(record_views(rest@).to_multiset())
                =~= input_views.to_multiset());
            assert forall|a: int, b: int| 0 <= a < b < out@.len() implies #[trigger] out@[a].popularity
                >= #[trigger] out@[b].popularity by {
                if b < pos {
                } else if a == pos {
                    assert(out@[b] == out_old[b - 1]);
                } else if b == pos {
                    assert(out@[a] == out_old[a]);
                } else if a < pos {
                    assert(out@[a] == out_old[a]);
                    assert(out@[b] == out_old[b - 1]);
                } else {
                    assert(out@[a] == out_old[a - 1]);
                    assert(out@[b] == out_old[b - 1]);
                }
            }
        }
    }
    proof {
        assert(record_views(rest@) =~= Seq::<RecordV>::empty());
        broadcast use vstd::multiset::group_multiset_axioms;

        assert(record_views(out@).to_multiset() =~= input_views.to_multiset());
    }
    out
}

/// Fuzzy search: scans every shard and keeps each record whose name or
/// description contains the term as a case-insensitive substring, sorts
/// the matches by popularity descending and truncates them to `limit`.
/// An empty term matches every record of the index.
pub fn get_top_packages(package_name: &str, packages_db: &ShardedIndex, limit: usize) -> (r: Vec<
    Record,
>)
    requires
        packages_db.wf(),
    ensures
        ({
            let matched = filter_matches(packages_db.all_records(), package_name@);
            &&& r@.len() == (if matched.len() <= limit {
                matched.len() as int
            } else {
                limit as int
            })
            &&& forall|a: int, b: int|
                0 <= a < b < r@.len() ==> #[trigger] r@[a].popularity
                    >= #[trigger] r@[b].popularity
            &&& forall|x: RecordV|
                #[trigger] record_views(r@).to_multiset().count(x) <= matched.to_multiset().count(
                    x,
                )
            &&& forall|i: int| 0 <= i < r@.len() ==> spec_matches(#[trigger] r@[i]@, package_name@)
            &&& forall|x: RecordV, i: int|
                0 <= i < r@.len() && #[trigger] matched.to_multiset().count(x)
                    > record_views(r@).to_multiset().count(x) ==> x.popularity
                    <= (#[trigger] r@[i]).popularity
            &&& (package_name@.len() == 0 ==> matched == packages_db.all_records())
        }),
{
    broadcast use vstd::seq_lib::group_to_multiset_ensures;

    let term_low = lowercase(package_name);
    let nshards = packages_db.shard_count();
    let mut matched: Vec<Record> = Vec::new();
    proof {
        assert(record_views(matched@) =~= Seq::<RecordV>::empty());
        assert(filter_matches(packages_db.records_up_to(0), package_name@)
            =~= Seq::<RecordV>::empty());
    }
    let mut k: usize = 0;
    while k < nshards
        invariant
            packages_db.wf(),
            nshards == packages_db.num_shards(),
            term_low@ == lower_of(package_name@),
            k <= nshards,
            record_views(matched@) == filter_matches(
                packages_db.records_up_to(k as int),
                package_name@,
            ),
        decreases nshards - k,
    {
        let shard = packages_db.get_shard(k);
        let ghost shard_seq = packages_db.shard_at(k as int);
        let mut j: usize = 0;
        proof {
            assert(packages_db.records_up_to(k as int) + shard_seq.subrange(0, 0)
                =~= packages_db.records_up_to(k as int));
        }
        while j < shard.len()
            invariant
                packages_db.wf(),
                term_low@ == lower_of(package_name@),
                record_views(shard@) == shard_seq,
                k < packages_db.num_shards(),
                shard_seq == packages_db.shard_at(k as int),
                j <= shard_seq.len(),
                record_views(matched@) == filter_matches(
                    packages_db.records_up_to(k as int) + shard_seq.subrange(0, j as int),
                    package_name@,
                ),
            decreases shard_seq.len() - j,
        {
            let ghost prefix = packages_db.records_up_to(k as int) + shard_seq.subrange(
                0,
                j as int,
            );
            let rec = &shard[j];
            proof {
                assert(shard_seq[j as int] == shard@[j as int]@);
            }
            let name_low = lowercase(rec.name.as_str());
            let desc_low = lowercase(rec.get_description());
            let is_match = str_contains(name_low.as_str(), term_low.as_str()) || str_contains(
                desc_low.as_str(),
                term_low.as_str(),
            );
            if is_match {
                let ghost old_matched = matched@;
                matched.push(rec.duplicate());
                proof {
                    assert(record_views(matched@) =~= record_views(old_matched).push(
                        shard_seq[j as int],
                    ));
                }
            }
            j = j + 1;
            proof {
                let prefix2 = packages_db.records_up_to(k as int) + shard_seq.subrange(
                    0,
                    j as int,
                );
                assert(prefix2.drop_last() =~= prefix);
                assert(prefix2.last() == shard_seq[j as int - 1]);
                assert(is_match == spec_matches(shard_seq[j as int - 1], package_name@));
            }
        }
        k = k + 1;
        proof {
            assert(packages_db.records_up_to(k as int - 1) + shard_seq.subrange(
                0,
                shard_seq.len() as int,
            ) =~= packages_db.records_up_to(k as int));
        }
    }
    let ghost matched_views = record_views(matched@);
    proof {
        assert(matched_views == filter_matches(packages_db.all_records(), package_name@));
        if package_name@.len() == 0 {
            assert(lower_of(package_name@).len() == 0);
            assert(lower_of(package_name@) =~= Seq::<char>::empty());
            assert forall|i: int|
                0 <= i < packages_db.all_records().len() implies spec_matches(
                #[trigger] packages_db.all_records()[i],
                package_name@,
            ) by {
                crate::text::lemma_empty_needle(lower_of(packages_db.all_records()[i].name));
            }
            lemma_filter_matches_all(packages_db.all_records(), package_name@);
        }
    }
    let mut sorted = sort_by_popularity(matched);
    let ghost sorted_views = record_views(sorted@);
    proof {
        assert forall|a: int, b: int|
            0 <= a < b < sorted_views.len() implies sorted_views[a].popularity
            >= sorted_views[b].popularity by {
            assert(sorted_views[a] == sorted@[a]@);
            assert(sorted_views[b] == sorted@[b]@);
        }
        assert(sorted_views.to_multiset() == matched_views.to_multiset());
    }
    if sorted.len() > limit {
        sorted.truncate(limit);
    }
    proof {
        assert(record_views(sorted@) =~= sorted_views.subrange(0, sorted@.len() as int));
        lemma_prefix_submultiset(sorted_views, sorted@.len() as int);
        broadcast use vstd::multiset::group_multiset_axioms;

        let kept = record_views(sorted@);
        let dropped = sorted_views.subrange(sorted@.len() as int, sorted_views.len() as int);
        assert(sorted_views =~= kept + dropped);
        lemma_multiset_commutative(kept, dropped);
        assert forall|x: RecordV, i: int|
            0 <= i < sorted@.len() && #[trigger] matched_views.to_multiset().count(x)
                > kept.to_multiset().count(x) implies x.popularity
            <= (#[trigger] sorted@[i]).popularity by {
            assert(dropped.to_multiset().count(x) > 0);
            assert(dropped.contains(x));
            let t = choose|t: int| 0 <= t < dropped.len() && dropped[t] == x;
            assert(sorted_views[sorted@.len() + t] == x);
            assert(sorted_views[i] == kept[i]);
            assert(kept[i] == sorted@[i]@);
            assert(sorted_views[i].popularity >= sorted_views[sorted@.len() + t].popularity);
        }
        assert forall|i: int| 0 <= i < sorted@.len() implies spec_matches(
            #[trigger] sorted@[i]@,
            package_name@,
        ) by {
            assert(record_views(sorted@).to_multiset().count(sorted@[i]@) >= 1) by {
                assert(record_views(sorted@)[i] == sorted@[i]@);
                assert(record_views(sorted@).contains(sorted@[i]@));
            }
            assert(matched_views.to_multiset().count(sorted@[i]@) >= 1);
            assert(matched_views.contains(sorted@[i]@));
            let t = choose|t: int| 0 <= t < matched_views.len() && matched_views[t] == sorted@[i]@;
            lemma_filter_matches_members(packages_db.all_records(), package_name@, t);
        }
    }
    sorted
}

/// Splits a list of queried names into those absent from the index and
/// the records found for those present, both in query order.
pub open spec fn spec_missing_names(names: Seq<Seq<char>>, db: &ShardedIndex) -> Seq<Seq<char>>
    decreases names.len(),
{
    if names.len() == 0 {
        Seq::<Seq<char>>::empty()
    } else {
        let prev = spec_missing_names(names.drop_last(), db);
        if db.spec_exact(names.last()) is None {
            prev.push(names.last())
        } else {
            prev
        }
    }
}

/// The records found for the queried names present in the index, in
/// query order.
pub open spec fn spec_found_records(names: Seq<Seq<char>>, db: &ShardedIndex) -> Seq<RecordV>
    decreases names.len(),
{
    if names.len() == 0 {
        Seq::<RecordV>::empty()
    } else {
        let prev = spec_found_records(names.drop_last(), db);
        match db.spec_exact(names.last()) {
            Some(r) => prev.push(r),
            None => prev,
        }
    }
}

/// Checks which of the queried package names exist in the index:
/// returns the names found nowhere and the records of those found.
pub fn check_packages_existance(package_names: &Vec<String>, packages_db: &ShardedIndex) -> (r: (
    Vec<String>,
    Vec<Record>,
))
    requires
        packages_db.wf(),
        forall|i: int| 0 <= i < package_names@.len() ==> (#[trigger] package_names@[i])@.len() > 0,
    ensures
        crate::codec::string_views(r.0@) == spec_missing_names(
            crate::codec::string_views(package_names@),
            packages_db,
        ),
        record_views(r.1@) == spec_found_records(
            crate::codec::string_views(package_names@),
            packages_db,
        ),
{
    let ghost names = crate::codec::string_views(package_names@);
    let mut missing: Vec<String> = Vec::new();
    let mut found: Vec<Record> = Vec::new();
    proof {
        assert(crate::codec::string_views(missing@) =~= Seq::<Seq<char>>::empty());
        assert(record_views(found@) =~= Seq::<RecordV>::empty());
        assert(names.subrange(0, 0) =~= Seq::<Seq<char>>::empty());
    }
    let mut i: usize = 0;
    while i < package_names.len()
        invariant
            packages_db.wf(),
            names == crate::codec::string_views(package_names@),
            forall|t: int|
                0 <= t < package_names@.len() ==> (#[trigger] package_names@[t])@.len() > 0,
            i <= names.len(),
            crate::codec::string_views(missing@) == spec_missing_names(
                names.subrange(0, i as int),
                packages_db,
            ),
            record_views(found@) == spec_found_records(names.subrange(0, i as int), packages_db),
        decreases names.len() - i,
    {
        let name = &package_names[i];
        proof {
            assert(names[i as int] == name@);
        }
        match query_exact_package(name.as_str(), packages_db) {
            Some(rec) => {
                let ghost old_found = found@;
                found.push(rec.duplicate());
                proof {
                    assert(record_views(found@) =~= record_views(old_found).push(rec@));
                }
            },
            None => {
                let ghost old_missing = missing@;
                missing.push(name.clone());
                proof {
                    assert(crate::codec::string_views(missing@) =~= crate::codec::string_views(
                        old_missing,
                    ).push(name@));
                }
            },
        }
        i = i + 1;
        proof {
            let pre = names.subrange(0, i as int);
            assert(pre.drop_last() =~= names.subrange(0, i as int - 1));
            assert(pre.last() == names[i as int - 1]);
        }
    }
    proof {
        assert(names.subrange(0, names.len() as int) =~= names);
    }
    (missing, found)
}

/// Looks up each named package and hands back the records found, in
/// query order; names absent from the index are left out.
pub fn handle_info(packages: &Vec<String>, packages_db: &ShardedIndex) -> (r: Vec<Record>)
    requires
        packages_db.wf(),
        forall|i: int| 0 <= i < packages@.len() ==> (#[trigger] packages@[i])@.len() > 0,
    ensures
        record_views(r@) == spec_found_records(
            crate::codec::string_views(packages@),
            packages_db,
        ),
{
    let (_missing, found) = check_packages_existance(packages, packages_db);
    found
}

} // verus!
