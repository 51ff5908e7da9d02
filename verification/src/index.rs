//! The sharded index: a fixed partition of the repository records into 27
//! shards keyed by the first character of the record name.

use vstd::prelude::*;

use crate::keys::{key_index, spec_key_index, SHARD_COUNT};
use crate::record::{record_views, Record, RecordV};
use crate::text::str_eq;

verus! {

/// The records of `rs` whose shard key is `k`, in input order.
pub open spec fn filter_key(rs: Seq<RecordV>, k: int) -> Seq<RecordV>
    decreases rs.len(),
{
    if rs.len() == 0 {
        Seq::<RecordV>::empty()
    } else {
        let prev = filter_key(rs.drop_last(), k);
        if spec_key_index(rs.last().name) == k {
            prev.push(rs.last())
        } else {
            prev
        }
    }
}

/// First record named `name` in `shard` at position `j` or later.
pub open spec fn find_from(shard: Seq<RecordV>, name: Seq<char>, j: int) -> Option<RecordV>
    decreases shard.len() - j,
{
    if j < 0 || j >= shard.len() {
        None::<RecordV>
    } else if shard[j].name == name {
        Some(shard[j])
    } else {
        find_from(shard, name, j + 1)
    }
}

/// The full local metadata cache: one ordered collection of records per
/// shard key. Built wholesale from a flat record list and treated as
/// immutable afterwards.
#[derive(Debug)]
pub struct ShardedIndex {
    shards: Vec<Vec<Record>>,
}

impl ShardedIndex {
    /// Number of shards.
    pub closed spec fn num_shards(&self) -> int {
        self.shards@.len() as int
    }

    /// The record values of shard `k`, in order.
    pub closed spec fn shard_at(&self, k: int) -> Seq<RecordV> {
        record_views(self.shards@[k]@)
    }

    /// Well-formed: exactly one shard per key, and every record sits in
    /// the shard matching its own name's key.
    pub open spec fn wf(&self) -> bool {
        &&& self.num_shards() == SHARD_COUNT
        &&& forall|k: int, j: int|
            0 <= k < self.num_shards() && 0 <= j < self.shard_at(k).len() ==> {
                &&& (#[trigger] self.shard_at(k)[j]).name.len() > 0
                &&& spec_key_index(self.shard_at(k)[j].name) == k
            }
    }

    /// Records of shards `0..k`, concatenated in shard order.
    pub open spec fn records_up_to(&self, k: int) -> Seq<RecordV>
        decreases k,
    {
        if k <= 0 {
            Seq::<RecordV>::empty()
        } else {
            self.records_up_to(k - 1) + self.shard_at(k - 1)
        }
    }

    /// Every record of the index, in shard order.
    pub open spec fn all_records(&self) -> Seq<RecordV> {
        self.records_up_to(self.num_shards())
    }

    /// The record the exact query returns for `name`: the first record of
    /// the shard keyed by `name` that carries exactly that name.
    pub open spec fn spec_exact(&self, name: Seq<char>) -> Option<RecordV>
        recommends
            self.wf(),
            name.len() > 0,
    {
        find_from(self.shard_at(spec_key_index(name)), name, 0)
    }

    /// No two records of the index share a name.
    pub open spec fn names_unique(&self) -> bool {
        forall|k1: int, j1: int, k2: int, j2: int|
            0 <= k1 < self.num_shards() && 0 <= j1 < self.shard_at(k1).len() && 0 <= k2
                < self.num_shards() && 0 <= j2 < self.shard_at(k2).len() && (k1 != k2 || j1 != j2)
                ==> (#[trigger] self.shard_at(k1)[j1]).name != (#[trigger] self.shard_at(
                k2,
            )[j2]).name
    }

    /// All shards of the index, as record values.
    pub open spec fn views(&self) -> Seq<Seq<RecordV>> {
        Seq::new(self.num_shards() as nat, |k: int| self.shard_at(k))
    }

    /// The records of one shard.
    pub fn get_shard(&self, k: usize) -> (s: &Vec<Record>)
        requires
            k < self.num_shards(),
        ensures
            record_views(s@) == self.shard_at(k as int),
    {
        &self.shards[k]
    }

    /// Number of shards held.
    pub fn shard_count(&self) -> (n: usize)
        ensures
            n == self.num_shards(),
    {
        self.shards.len()
    }
}

/// Wraps shard vectors that already satisfy the partition invariant.
pub(crate) fn from_shards(shards: Vec<Vec<Record>>) -> (idx: ShardedIndex)
    requires
        shards@.len() == SHARD_COUNT,
        forall|k: int, j: int|
            0 <= k < shards@.len() && 0 <= j < shards@[k]@.len() ==> {
                &&& (#[trigger] record_views(shards@[k]@)[j]).name.len() > 0
                &&& spec_key_index(record_views(shards@[k]@)[j].name) == k
            },
    ensures
        idx.wf(),
        idx.num_shards() == SHARD_COUNT,
        forall|k: int| 0 <= k < SHARD_COUNT ==> idx.shard_at(k) == record_views(shards@[k]@),
{
    ShardedIndex { shards }
}

/// Partitions a flat record list into a well-formed sharded index: shard
/// `k` holds exactly the input records whose key is `k`, in input order.
pub fn build_index(records: &Vec<Record>) -> (idx: ShardedIndex)
    requires
        forall|i: int| 0 <= i < records@.len() ==> (#[trigger] records@[i]).name@.len() > 0,
    ensures
        idx.wf(),
        idx.num_shards() == SHARD_COUNT,
        forall|k: int|
            0 <= k < SHARD_COUNT ==> idx.shard_at(k) == filter_key(record_views(records@), k),
{
    let ghost rviews = record_views(records@);
    proof {
        assert(forall|i: int|
            0 <= i < rviews.len() ==> (#[trigger] rviews[i]).name.len() > 0 && rviews[i]
                == records@[i]@);
    }
    let mut shards: Vec<Vec<Record>> = Vec::new();
    let mut k: usize = 0;
    while k < SHARD_COUNT
        invariant
            rviews == record_views(records@),
            forall|i: int| 0 <= i < records@.len() ==> (#[trigger] records@[i]).name@.len() > 0,
            k <= SHARD_COUNT,
            shards@.len() == k,
            forall|k2: int|
                0 <= k2 < k ==> record_views((#[trigger] shards@[k2])@) == filter_key(rviews, k2),
        decreases SHARD_COUNT - k,
    {
        let mut shard: Vec<Record> = Vec::new();
        let mut i: usize = 0;
        while i < records.len()
            invariant
                rviews == record_views(records@),
                forall|i2: int|
                    0 <= i2 < records@.len() ==> (#[trigger] records@[i2]).name@.len() > 0,
                i <= records@.len(),
                record_views(shard@) == filter_key(rviews.subrange(0, i as int), k as int),
            decreases records@.len() - i,
        {
            let ghost old_shard = shard@;
            let rec = &records[i];
            if key_index(rec.name.as_str()) == k {
                shard.push(rec.duplicate());
                proof {
                    assert(record_views(shard@) =~= record_views(old_shard).push(records@[i as int]@));
                }
            }
            i = i + 1;
            proof {
                let pre = rviews.subrange(0, i as int);
                assert(pre.drop_last() =~= rviews.subrange(0, i as int - 1));
                assert(pre.last() == rviews[i as int - 1]);
            }
        }
        proof {
            assert(rviews.subrange(0, rviews.len() as int) =~= rviews);
        }
        shards.push(shard);
        k = k + 1;
    }
    let idx = ShardedIndex { shards };
    proof {
        assert forall|k: int, j: int|
            0 <= k < idx.num_shards() && 0 <= j < idx.shard_at(k).len() implies {
            &&& (#[trigger] idx.shard_at(k)[j]).name.len() > 0
            &&& spec_key_index(idx.shard_at(k)[j].name) == k
        } by {
            assert(idx.shard_at(k) == filter_key(rviews, k));
            lemma_filter_key_members(rviews, k, j);
            let i = choose|i: int| 0 <= i < rviews.len() && rviews[i] == filter_key(rviews, k)[j];
            assert(records@[i]@.name =~= records@[i].name@);
        }
    }
    idx
}

/// Every element of `filter_key(rs, k)` is a record of `rs` whose key is
/// `k`.
pub proof fn lemma_filter_key_members(rs: Seq<RecordV>, k: int, j: int)
    requires
        0 <= j < filter_key(rs, k).len(),
    ensures
        spec_key_index(filter_key(rs, k)[j].name) == k,
        exists|i: int| 0 <= i < rs.len() && rs[i] == filter_key(rs, k)[j],
    decreases rs.len(),
{
    if rs.len() > 0 {
        let prev = filter_key(rs.drop_last(), k);
        if j < prev.len() {
            lemma_filter_key_members(rs.drop_last(), k, j);
            let i = choose|i: int|
                0 <= i < rs.drop_last().len() && rs.drop_last()[i] == filter_key(rs, k)[j];
            assert(rs[i] == filter_key(rs, k)[j]);
        } else {
            assert(rs[rs.len() - 1] == filter_key(rs, k)[j]);
        }
    }
}

/// Exact lookup: computes the shard key of `package` and searches only
/// that shard, returning the first record whose name matches exactly.
pub fn query_exact_package<'a>(package: &str, database: &'a ShardedIndex) -> (r: Option<&'a Record>)
    requires
        database.wf(),
        package@.len() > 0,
    ensures
        match r {
            Some(rec) => database.spec_exact(package@) == Some(rec@),
            None => database.spec_exact(package@) is None,
        },
{
    let k = key_index(package);
    let shard = database.get_shard(k);
    let ghost shard_seq = database.shard_at(k as int);
    let mut j: usize = 0;
    while j < shard.len()
        invariant
            shard_seq == database.shard_at(spec_key_index(package@)),
            record_views(shard@) == shard_seq,
            j <= shard_seq.len(),
            find_from(shard_seq, package@, 0) == find_from(shard_seq, package@, j as int),
        decreases shard_seq.len() - j,
    {
        proof {
            assert(shard_seq[j as int] == shard@[j as int]@);
        }
        if str_eq(shard[j].name.as_str(), package) {
            proof {
                assert(shard_seq[j as int].name == package@);
                assert(find_from(shard_seq, package@, j as int) == Some(shard_seq[j as int]));
                assert(database.spec_exact(package@) == Some(shard@[j as int]@));
            }
            return Some(&shard[j]);
        }
        j = j + 1;
    }
    None
}

/// What the first-match search yields: a record of the shard bearing the
/// searched name, or the guarantee that no such record exists.
pub proof fn lemma_find_from_props(shard: Seq<RecordV>, name: Seq<char>, j: int)
    requires
        0 <= j <= shard.len(),
    ensures
        match find_from(shard, name, j) {
            Some(r) => r.name == name && exists|t: int|
                j <= t < shard.len() && (#[trigger] shard[t]) == r,
            None => forall|t: int| j <= t < shard.len() ==> (#[trigger] shard[t]).name != name,
        },
    decreases shard.len() - j,
{
    if j < shard.len() {
        if shard[j].name == name {
            assert(j <= j < shard.len() && shard[j] == find_from(shard, name, j).unwrap());
        } else {
            lemma_find_from_props(shard, name, j + 1);
        }
    }
}

/// In a well-formed index whose record names are unique, the exact query
/// is decided by name membership alone: it returns precisely the one
/// record bearing the queried name when the index holds one, and nothing
/// when it holds none.
pub proof fn lemma_exact_unique(db: &ShardedIndex, name: Seq<char>)
    requires
        db.wf(),
        db.names_unique(),
        name.len() > 0,
    ensures
        (forall|k: int, j: int|
            0 <= k < db.num_shards() && 0 <= j < db.shard_at(k).len() ==> (#[trigger] db.shard_at(
                k,
            )[j]).name != name) ==> db.spec_exact(name) is None,
        forall|k: int, j: int|
            0 <= k < db.num_shards() && 0 <= j < db.shard_at(k).len() && (#[trigger] db.shard_at(
                k,
            )[j]).name == name ==> db.spec_exact(name) == Some(db.shard_at(k)[j]),
{
    let key = spec_key_index(name);
    let shard = db.shard_at(key);
    crate::keys::lemma_char_key_index_in_range(name[0]);
    lemma_find_from_props(shard, name, 0);
    if (forall|k: int, j: int|
        0 <= k < db.num_shards() && 0 <= j < db.shard_at(k).len() ==> (#[trigger] db.shard_at(
            k,
        )[j]).name != name) {
        if db.spec_exact(name) is Some {
            let r = db.spec_exact(name).unwrap();
            let t = choose|t: int| 0 <= t < shard.len() && (#[trigger] shard[t]) == r;
            assert(db.shard_at(key)[t].name != name);
            assert(false);
        }
    }
    assert forall|k: int, j: int|
        0 <= k < db.num_shards() && 0 <= j < db.shard_at(k).len() && (#[trigger] db.shard_at(
            k,
        )[j]).name == name implies db.spec_exact(name) == Some(db.shard_at(k)[j]) by {
        assert(spec_key_index(db.shard_at(k)[j].name) == k);
        assert(k == key);
        match find_from(shard, name, 0) {
            None => {
                assert(db.shard_at(key)[j].name != name);
                assert(false);
            },
            Some(r) => {
                let t = choose|t: int| 0 <= t < shard.len() && (#[trigger] shard[t]) == r;
                if t != j {
                    assert(db.shard_at(key)[t].name != db.shard_at(key)[j].name);
                    assert(false);
                }
            },
        }
    }
}

} // verus!
