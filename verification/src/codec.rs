//! The persisted form of the sharded index: a length-prefixed text format
//! written and read entirely by this module, with a proven round trip.
//!
//! Numbers are decimal digits closed by `:`; a string is its character
//! count followed by its characters; records, shards and the index are
//! fixed-order concatenations of those.

use vstd::prelude::*;

use crate::digits::{
    digits_of, is_digit_char, lemma_parse_digits_of, parse_u64, spec_parse_u64,
};
use crate::index::{from_shards, ShardedIndex};
use crate::keys::{spec_key_index, SHARD_COUNT};
use crate::record::{record_views, Record, RecordV};
use crate::text::{chars_to_string, str_to_chars};

verus! {

/// A number: its decimal digits closed by a colon.
pub open spec fn enc_num(n: int) -> Seq<char> {
    digits_of(n) + seq![':']
}

/// A string: its character count, then its characters.
pub open spec fn enc_str(s: Seq<char>) -> Seq<char> {
    enc_num(s.len() as int) + s
}

/// Strings, one after the other.
pub open spec fn cat_strs(ds: Seq<Seq<char>>) -> Seq<char>
    decreases ds.len(),
{
    if ds.len() == 0 {
        Seq::<char>::empty()
    } else {
        enc_str(ds.first()) + cat_strs(ds.drop_first())
    }
}

/// A string list: its count, then its strings.
pub open spec fn enc_str_list(ds: Seq<Seq<char>>) -> Seq<char> {
    enc_num(ds.len() as int) + cat_strs(ds)
}

/// A record: its six fields in fixed order.
pub open spec fn enc_record(r: RecordV) -> Seq<char> {
    enc_str(r.name) + enc_str(r.version) + enc_str(r.description) + enc_num(r.popularity as int)
        + enc_str(r.url_path) + enc_str_list(r.depends)
}

/// Records, one after the other.
pub open spec fn cat_records(rs: Seq<RecordV>) -> Seq<char>
    decreases rs.len(),
{
    if rs.len() == 0 {
        Seq::<char>::empty()
    } else {
        enc_record(rs.first()) + cat_records(rs.drop_first())
    }
}

/// A shard: its record count, then its records.
pub open spec fn enc_shard(rs: Seq<RecordV>) -> Seq<char> {
    enc_num(rs.len() as int) + cat_records(rs)
}

/// Shards, one after the other.
pub open spec fn cat_shards(iv: Seq<Seq<RecordV>>) -> Seq<char>
    decreases iv.len(),
{
    if iv.len() == 0 {
        Seq::<char>::empty()
    } else {
        enc_shard(iv.first()) + cat_shards(iv.drop_first())
    }
}

/// The whole index: its 27 shards in key order.
pub open spec fn enc_index(iv: Seq<Seq<RecordV>>) -> Seq<char> {
    cat_shards(iv)
}

/// Decoded number: a digit run fitting a `u64`, closed by a colon.
pub open spec fn dec_num(s: Seq<char>, pos: int) -> Option<(u64, int)> {
    match spec_parse_u64(s, pos) {
        None => None::<(u64, int)>,
        Some((n, end)) => if end < s.len() && s[end] == ':' {
            Some((n, end + 1))
        } else {
            None::<(u64, int)>
        },
    }
}

/// Decoded string: a length, then that many characters.
pub open spec fn dec_str(s: Seq<char>, pos: int) -> Option<(Seq<char>, int)> {
    match dec_num(s, pos) {
        None => None::<(Seq<char>, int)>,
        Some((n, p)) => if p + n <= s.len() {
            Some((s.subrange(p, p + n), p + n))
        } else {
            None::<(Seq<char>, int)>
        },
    }
}

/// Decoded run of `n` strings.
pub open spec fn dec_strs(s: Seq<char>, pos: int, n: u64) -> Option<(Seq<Seq<char>>, int)>
    decreases n,
{
    if n == 0 {
        Some((Seq::<Seq<char>>::empty(), pos))
    } else {
        match dec_str(s, pos) {
            None => None::<(Seq<Seq<char>>, int)>,
            Some((t, p)) => match dec_strs(s, p, (n - 1) as u64) {
                None => None::<(Seq<Seq<char>>, int)>,
                Some((ts, p2)) => Some((seq![t] + ts, p2)),
            },
        }
    }
}

/// Decoded string list: a count, then that many strings.
pub open spec fn dec_str_list(s: Seq<char>, pos: int) -> Option<(Seq<Seq<char>>, int)> {
    match dec_num(s, pos) {
        None => None::<(Seq<Seq<char>>, int)>,
        Some((n, p)) => dec_strs(s, p, n),
    }
}

/// Decoded record: six fields in fixed order; an empty name is refused,
/// since no shard key would be defined for it.
pub open spec fn dec_record(s: Seq<char>, pos: int) -> Option<(RecordV, int)> {
    match dec_str(s, pos) {
        None => None::<(RecordV, int)>,
        Some((name, p1)) => if name.len() == 0 {
            None::<(RecordV, int)>
        } else {
            match dec_str(s, p1) {
                None => None::<(RecordV, int)>,
                Some((version, p2)) => match dec_str(s, p2) {
                    None => None::<(RecordV, int)>,
                    Some((description, p3)) => match dec_num(s, p3) {
                        None => None::<(RecordV, int)>,
                        Some((popularity, p4)) => match dec_str(s, p4) {
                            None => None::<(RecordV, int)>,
                            Some((url_path, p5)) => match dec_str_list(s, p5) {
                                None => None::<(RecordV, int)>,
                                Some((depends, p6)) => Some(
                                    (
                                        RecordV {
                                            name,
                                            version,
                                            description,
                                            popularity,
                                            url_path,
                                            depends,
                                        },
                                        p6,
                                    ),
                                ),
                            },
                        },
                    },
                },
            }
        },
    }
}

/// Decoded run of `n` records, each required to belong to shard `k`.
pub open spec fn dec_records(s: Seq<char>, pos: int, n: u64, k: int) -> Option<(Seq<RecordV>, int)>
    decreases n,
{
    if n == 0 {
        Some((Seq::<RecordV>::empty(), pos))
    } else {
        match dec_record(s, pos) {
            None => None::<(Seq<RecordV>, int)>,
            Some((r, p)) => if spec_key_index(r.name) != k {
                None::<(Seq<RecordV>, int)>
            } else {
                match dec_records(s, p, (n - 1) as u64, k) {
                    None => None::<(Seq<RecordV>, int)>,
                    Some((rs, p2)) => Some((seq![r] + rs, p2)),
                }
            },
        }
    }
}

/// Decoded shard `k`: a record count, then that many records of key `k`.
pub open spec fn dec_shard(s: Seq<char>, pos: int, k: int) -> Option<(Seq<RecordV>, int)> {
    match dec_num(s, pos) {
        None => None::<(Seq<RecordV>, int)>,
        Some((n, p)) => dec_records(s, p, n, k),
    }
}

/// Decoded shards `k..27`, one after the other.
pub open spec fn dec_shards(s: Seq<char>, pos: int, k: int) -> Option<(Seq<Seq<RecordV>>, int)>
    decreases SHARD_COUNT - k,
{
    if k >= SHARD_COUNT {
        Some((Seq::<Seq<RecordV>>::empty(), pos))
    } else {
        match dec_shard(s, pos, k) {
            None => None::<(Seq<Seq<RecordV>>, int)>,
            Some((sh, p)) => match dec_shards(s, p, k + 1) {
                None => None::<(Seq<Seq<RecordV>>, int)>,
                Some((rest, p2)) => Some((seq![sh] + rest, p2)),
            },
        }
    }
}

/// The decoded index: all 27 shards, consuming the whole text.
pub open spec fn dec_index(s: Seq<char>) -> Option<Seq<Seq<RecordV>>> {
    match dec_shards(s, 0, 0) {
        None => None::<Seq<Seq<RecordV>>>,
        Some((iv, p)) => if p == s.len() {
            Some(iv)
        } else {
            None::<Seq<Seq<RecordV>>>
        },
    }
}

/// Appends the characters of `s`.
fn push_chars_of(out: &mut Vec<char>, s: &str)
    ensures
        final(out)@ == old(out)@ + s@,
{
    let n = s.unicode_len();
    let mut i: usize = 0;
    while i < n
        invariant
            n == s@.len(),
            i <= n,
            out@ == old(out)@ + s@.subrange(0, i as int),
        decreases n - i,
    {
        out.push(s.get_char(i));
        i = i + 1;
        proof {
            assert(out@ =~= old(out)@ + s@.subrange(0, i as int));
        }
    }
    proof {
        assert(out@ =~= old(out)@ + s@);
    }
}

/// Appends the notation of a number.
fn push_enc_num(out: &mut Vec<char>, n: u64)
    ensures
        final(out)@ == old(out)@ + enc_num(n as int),
{
    crate::digits::push_digits_u64(n, out);
    out.push(':');
    proof {
        assert(out@ =~= old(out)@ + enc_num(n as int));
    }
}

/// Appends the notation of a string.
fn push_enc_str(out: &mut Vec<char>, s: &str)
    ensures
        final(out)@ == old(out)@ + enc_str(s@),
{
    let n = s.unicode_len();
    push_enc_num(out, n as u64);
    push_chars_of(out, s);
    proof {
        assert(out@ =~= old(out)@ + enc_str(s@));
    }
}

/// Appending one more string extends the concatenation at its end.
proof fn lemma_cat_strs_push(ds: Seq<Seq<char>>, t: Seq<char>)
    ensures
        cat_strs(ds.push(t)) == cat_strs(ds) + enc_str(t),
    decreases ds.len(),
{
    if ds.len() == 0 {
        assert(ds.push(t).drop_first() =~= Seq::<Seq<char>>::empty());
        assert(cat_strs(Seq::<Seq<char>>::empty()) =~= Seq::<char>::empty());
        assert(ds.push(t).first() == t);
        assert(cat_strs(ds.push(t)) =~= cat_strs(ds) + enc_str(t));
    } else {
        assert(ds.push(t).first() == ds.first());
        assert(ds.push(t).drop_first() =~= ds.drop_first().push(t));
        lemma_cat_strs_push(ds.drop_first(), t);
        assert(cat_strs(ds.push(t)) =~= cat_strs(ds) + enc_str(t));
    }
}

/// Appending one more record extends the concatenation at its end.
proof fn lemma_cat_records_push(rs: Seq<RecordV>, r: RecordV)
    ensures
        cat_records(rs.push(r)) == cat_records(rs) + enc_record(r),
    decreases rs.len(),
{
    if rs.len() == 0 {
        assert(rs.push(r).drop_first() =~= Seq::<RecordV>::empty());
        assert(cat_records(Seq::<RecordV>::empty()) =~= Seq::<char>::empty());
        assert(rs.push(r).first() == r);
        assert(cat_records(rs.push(r)) =~= cat_records(rs) + enc_record(r));
    } else {
        assert(rs.push(r).first() == rs.first());
        assert(rs.push(r).drop_first() =~= rs.drop_first().push(r));
        lemma_cat_records_push(rs.drop_first(), r);
        assert(cat_records(rs.push(r)) =~= cat_records(rs) + enc_record(r));
    }
}

/// Appending one more shard extends the concatenation at its end.
proof fn lemma_cat_shards_push(iv: Seq<Seq<RecordV>>, sh: Seq<RecordV>)
    ensures
        cat_shards(iv.push(sh)) == cat_shards(iv) + enc_shard(sh),
    decreases iv.len(),
{
    if iv.len() == 0 {
        assert(iv.push(sh).drop_first() =~= Seq::<Seq<RecordV>>::empty());
        assert(cat_shards(Seq::<Seq<RecordV>>::empty()) =~= Seq::<char>::empty());
        assert(iv.push(sh).first() == sh);
        assert(cat_shards(iv.push(sh)) =~= cat_shards(iv) + enc_shard(sh));
    } else {
        assert(iv.push(sh).first() == iv.first());
        assert(iv.push(sh).drop_first() =~= iv.drop_first().push(sh));
        lemma_cat_shards_push(iv.drop_first(), sh);
        assert(cat_shards(iv.push(sh)) =~= cat_shards(iv) + enc_shard(sh));
    }
}

/// Appends the notation of one record.
fn push_enc_record(out: &mut Vec<char>, r: &Record)
    ensures
        final(out)@ == old(out)@ + enc_record(r@),
{
    push_enc_str(out, r.name.as_str());
    push_enc_str(out, r.version.as_str());
    push_enc_str(out, r.description.as_str());
    push_enc_num(out, r.popularity);
    push_enc_str(out, r.url_path.as_str());
    push_enc_num(out, r.depends.len() as u64);
    let ghost mid = out@;
    let mut i: usize = 0;
    while i < r.depends.len()
        invariant
            i <= r.depends@.len(),
            out@ == mid + cat_strs(r@.depends.subrange(0, i as int)),
            r@.depends.len() == r.depends@.len(),
            forall|j: int| 0 <= j < r.depends@.len() ==> r@.depends[j] == r.depends@[j]@,
        decreases r.depends@.len() - i,
    {
        push_enc_str(out, r.depends[i].as_str());
        i = i + 1;
        proof {
            lemma_cat_strs_push(r@.depends.subrange(0, i as int - 1), r@.depends[i as int - 1]);
            assert(r@.depends.subrange(0, i as int) =~= r@.depends.subrange(0, i as int - 1).push(
                r@.depends[i as int - 1],
            ));
        }
    }
    proof {
        assert(r@.depends.subrange(0, r@.depends.len() as int) =~= r@.depends);
        assert(out@ =~= old(out)@ + enc_record(r@));
    }
}

/// The views of a sequence of strings.
pub open spec fn string_views(ds: Seq<String>) -> Seq<Seq<char>> {
    ds.map_values(|d: String| d@)
}

/// The record values of a sequence of shard vectors.
pub open spec fn shard_views(ss: Seq<Vec<Record>>) -> Seq<Seq<RecordV>> {
    ss.map_values(|v: Vec<Record>| record_views(v@))
}

/// Serialises a whole index as the persisted cache text.
pub fn encode_index(index: &ShardedIndex) -> (out: String)
    ensures
        out@ == enc_index(index.views()),
{
    let mut buf: Vec<char> = Vec::new();
    let nshards = index.shard_count();
    let mut k: usize = 0;
    while k < nshards
        invariant
            nshards == index.num_shards(),
            k <= nshards,
            buf@ == cat_shards(index.views().subrange(0, k as int)),
        decreases nshards - k,
    {
        let shard = index.get_shard(k);
        let ghost shard_seq = index.shard_at(k as int);
        push_enc_num(&mut buf, shard.len() as u64);
        let ghost mid = buf@;
        let mut j: usize = 0;
        while j < shard.len()
            invariant
                record_views(shard@) == shard_seq,
                j <= shard@.len(),
                buf@ == mid + cat_records(shard_seq.subrange(0, j as int)),
            decreases shard@.len() - j,
        {
            push_enc_record(&mut buf, &shard[j]);
            j = j + 1;
            proof {
                lemma_cat_records_push(
                    shard_seq.subrange(0, j as int - 1),
                    shard_seq[j as int - 1],
                );
                assert(shard_seq.subrange(0, j as int) =~= shard_seq.subrange(
                    0,
                    j as int - 1,
                ).push(shard_seq[j as int - 1]));
                assert(shard@[j as int - 1]@ == shard_seq[j as int - 1]);
            }
        }
        k = k + 1;
        proof {
            assert(shard_seq.subrange(0, shard_seq.len() as int) =~= shard_seq);
            assert(buf@ =~= mid + cat_records(shard_seq));
            lemma_cat_shards_push(index.views().subrange(0, k as int - 1), shard_seq);
            assert(index.views().subrange(0, k as int) =~= index.views().subrange(
                0,
                k as int - 1,
            ).push(shard_seq));
            assert(buf@ =~= cat_shards(index.views().subrange(0, k as int)));
        }
    }
    proof {
        assert(index.views().subrange(0, index.views().len() as int) =~= index.views());
    }
    chars_to_string(&buf)
}

/// Reads a number, exactly as [`dec_num`] describes.
fn dec_num_exec(s: &Vec<char>, pos: usize) -> (r: Option<(u64, usize)>)
    requires
        pos <= s@.len(),
    ensures
        match r {
            Some((n, p)) => dec_num(s@, pos as int) == Some((n, p as int)) && pos < p <= s@.len(),
            None => dec_num(s@, pos as int) is None,
        },
{
    match parse_u64(s, pos) {
        None => None,
        Some((n, end)) => {
            if end < s.len() && s[end] == ':' {
                Some((n, end + 1))
            } else {
                None
            }
        },
    }
}

/// Reads a string, exactly as [`dec_str`] describes.
fn dec_string_exec(s: &Vec<char>, pos: usize) -> (r: Option<(String, usize)>)
    requires
        pos <= s@.len(),
    ensures
        match r {
            Some((t, p)) => dec_str(s@, pos as int) == Some((t@, p as int)) && pos < p <= s@.len(),
            None => dec_str(s@, pos as int) is None,
        },
{
    let (n, p) = match dec_num_exec(s, pos) {
        None => {
            return None;
        },
        Some(x) => x,
    };
    if n > (s.len() - p) as u64 {
        return None;
    }
    let nn = n as usize;
    let slen = s.len();
    let mut chars: Vec<char> = Vec::new();
    let mut i: usize = 0;
    while i < nn
        invariant
            slen == s@.len(),
            p + nn <= slen,
            i <= nn,
            chars@ == s@.subrange(p as int, p as int + i as int),
        decreases nn - i,
    {
        chars.push(s[p + i]);
        i = i + 1;
        proof {
            assert(chars@ =~= s@.subrange(p as int, p as int + i as int));
        }
    }
    let t = chars_to_string(&chars);
    Some((t, p + nn))
}

/// Reads `n` strings, exactly as [`dec_strs`] describes.
fn dec_strings_exec(s: &Vec<char>, pos: usize, n: u64) -> (r: Option<(Vec<String>, usize)>)
    requires
        pos <= s@.len(),
    ensures
        match r {
            Some((ts, p)) => dec_strs(s@, pos as int, n) == Some((string_views(ts@), p as int))
                && pos <= p <= s@.len(),
            None => dec_strs(s@, pos as int, n) is None,
        },
{
    let mut acc: Vec<String> = Vec::new();
    let mut i: usize = pos;
    let mut rem: u64 = n;
    while rem > 0
        invariant
            pos <= i <= s@.len(),
            rem <= n,
            dec_strs(s@, pos as int, n) == (match dec_strs(s@, i as int, rem) {
                None => None::<(Seq<Seq<char>>, int)>,
                Some((ts2, p2)) => Some((string_views(acc@) + ts2, p2)),
            }),
        decreases rem,
    {
        let (t, p) = match dec_string_exec(s, i) {
            None => {
                return None;
            },
            Some(x) => x,
        };
        let ghost old_acc = acc@;
        let ghost tview = t@;
        acc.push(t);
        i = p;
        rem = rem - 1;
        proof {
            assert(string_views(acc@) =~= string_views(old_acc).push(tview));
            assert forall|ts2: Seq<Seq<char>>| true implies #[trigger] (string_views(acc@)
                + ts2) =~= string_views(old_acc) + (seq![tview] + ts2) by {}
        }
    }
    proof {
        assert(dec_strs(s@, i as int, 0) == Some((Seq::<Seq<char>>::empty(), i as int)));
        assert(string_views(acc@) + Seq::<Seq<char>>::empty() =~= string_views(acc@));
    }
    Some((acc, i))
}

/// Reads one record, exactly as [`dec_record`] describes.
fn dec_record_exec(s: &Vec<char>, pos: usize) -> (r: Option<(Record, usize)>)
    requires
        pos <= s@.len(),
    ensures
        match r {
            Some((rec, p)) => dec_record(s@, pos as int) == Some((rec@, p as int)) && rec.wf()
                && pos < p <= s@.len(),
            None => dec_record(s@, pos as int) is None,
        },
{
    let (name, p1) = match dec_string_exec(s, pos) {
        None => {
            return None;
        },
        Some(x) => x,
    };
    if name.as_str().is_empty() {
        return None;
    }
    let (version, p2) = match dec_string_exec(s, p1) {
        None => {
            return None;
        },
        Some(x) => x,
    };
    let (description, p3) = match dec_string_exec(s, p2) {
        None => {
            return None;
        },
        Some(x) => x,
    };
    let (popularity, p4) = match dec_num_exec(s, p3) {
        None => {
            return None;
        },
        Some(x) => x,
    };
    let (url_path, p5) = match dec_string_exec(s, p4) {
        None => {
            return None;
        },
        Some(x) => x,
    };
    let (depends, p6) = match dec_strings_list_exec(s, p5) {
        None => {
            return None;
        },
        Some(x) => x,
    };
    let rec = Record { name, version, description, popularity, url_path, depends };
    proof {
        assert(rec@.depends =~= string_views(rec.depends@));
    }
    Some((rec, p6))
}

/// Reads a counted string list, exactly as [`dec_str_list`] describes.
fn dec_strings_list_exec(s: &Vec<char>, pos: usize) -> (r: Option<(Vec<String>, usize)>)
    requires
        pos <= s@.len(),
    ensures
        match r {
            Some((ts, p)) => dec_str_list(s@, pos as int) == Some((string_views(ts@), p as int))
                && pos < p <= s@.len(),
            None => dec_str_list(s@, pos as int) is None,
        },
{
    let (n, p0) = match dec_num_exec(s, pos) {
        None => {
            return None;
        },
        Some(x) => x,
    };
    match dec_strings_exec(s, p0, n) {
        None => None,
        Some((ts, p)) => Some((ts, p)),
    }
}

/// Reads one shard, exactly as [`dec_shard`] describes.
fn dec_shard_exec(s: &Vec<char>, pos: usize, k: usize) -> (r: Option<(Vec<Record>, usize)>)
    requires
        pos <= s@.len(),
        k < SHARD_COUNT,
    ensures
        match r {
            Some((recs, p)) => {
                &&& dec_shard(s@, pos as int, k as int) == Some((record_views(recs@), p as int))
                &&& pos <= p <= s@.len()
                &&& forall|j: int|
                    0 <= j < recs@.len() ==> (#[trigger] record_views(recs@)[j]).name.len() > 0
                        && spec_key_index(record_views(recs@)[j].name) == k as int
            },
            None => dec_shard(s@, pos as int, k as int) is None,
        },
{
    let (n, p0) = match dec_num_exec(s, pos) {
        None => {
            return None;
        },
        Some(x) => x,
    };
    let mut acc: Vec<Record> = Vec::new();
    let mut i: usize = p0;
    let mut rem: u64 = n;
    while rem > 0
        invariant
            pos < p0 <= i <= s@.len(),
            rem <= n,
            k < SHARD_COUNT,
            dec_num(s@, pos as int) == Some((n, p0 as int)),
            dec_records(s@, p0 as int, n, k as int) == (match dec_records(
                s@,
                i as int,
                rem,
                k as int,
            ) {
                None => None::<(Seq<RecordV>, int)>,
                Some((rs2, p2)) => Some((record_views(acc@) + rs2, p2)),
            }),
            forall|j: int|
                0 <= j < acc@.len() ==> (#[trigger] record_views(acc@)[j]).name.len() > 0
                    && spec_key_index(record_views(acc@)[j].name) == k as int,
        decreases rem,
    {
        let (rec, p) = match dec_record_exec(s, i) {
            None => {
                return None;
            },
            Some(x) => x,
        };
        if crate::keys::key_index(rec.name.as_str()) != k {
            return None;
        }
        let ghost old_acc = acc@;
        let ghost rv = rec@;
        acc.push(rec);
        i = p;
        rem = rem - 1;
        proof {
            assert(record_views(acc@) =~= record_views(old_acc).push(rv));
            assert forall|rs2: Seq<RecordV>| true implies #[trigger] (record_views(acc@)
                + rs2) =~= record_views(old_acc) + (seq![rv] + rs2) by {}
        }
    }
    proof {
        assert(dec_records(s@, i as int, 0, k as int) == Some((Seq::<RecordV>::empty(), i as int)));
        assert(record_views(acc@) + Seq::<RecordV>::empty() =~= record_views(acc@));
    }
    Some((acc, i))
}

/// Reads a persisted cache text back into a sharded index, exactly as
/// [`dec_index`] describes; any deviation from the format yields nothing.
pub fn decode_index(text: &str) -> (r: Option<ShardedIndex>)
    ensures
        match r {
            Some(idx) => dec_index(text@) == Some(idx.views()) && idx.wf(),
            None => dec_index(text@) is None,
        },
{
    let cs = str_to_chars(text);
    let mut shards: Vec<Vec<Record>> = Vec::new();
    let mut pos: usize = 0;
    let mut k: usize = 0;
    while k < SHARD_COUNT
        invariant
            cs@ == text@,
            pos <= cs@.len(),
            shards@.len() == k,
            k <= SHARD_COUNT,
            dec_shards(cs@, 0, 0) == (match dec_shards(cs@, pos as int, k as int) {
                None => None::<(Seq<Seq<RecordV>>, int)>,
                Some((rest, p2)) => Some((shard_views(shards@) + rest, p2)),
            }),
            forall|k2: int, j: int|
                0 <= k2 < shards@.len() && 0 <= j < shards@[k2]@.len() ==> {
                    &&& (#[trigger] record_views(shards@[k2]@)[j]).name.len() > 0
                    &&& spec_key_index(record_views(shards@[k2]@)[j].name) == k2
                },
        decreases SHARD_COUNT - k,
    {
        let (recs, p) = match dec_shard_exec(&cs, pos, k) {
            None => {
                return None;
            },
            Some(x) => x,
        };
        let ghost old_shards = shards@;
        let ghost sview = record_views(recs@);
        shards.push(recs);
        pos = p;
        k = k + 1;
        proof {
            assert(shard_views(shards@) =~= shard_views(old_shards).push(sview));
            assert forall|rest: Seq<Seq<RecordV>>| true implies #[trigger] (shard_views(shards@)
                + rest) =~= shard_views(old_shards) + (seq![sview] + rest) by {}
        }
    }
    proof {
        assert(dec_shards(cs@, pos as int, SHARD_COUNT as int) == Some(
            (Seq::<Seq<RecordV>>::empty(), pos as int),
        ));
        assert(shard_views(shards@) + Seq::<Seq<RecordV>>::empty() =~= shard_views(shards@));
    }
    if pos != cs.len() {
        return None;
    }
    let ghost final_views = shard_views(shards@);
    let idx = from_shards(shards);
    proof {
        assert(idx.views() =~= final_views);
    }
    Some(idx)
}

/// Field lengths and counts that fit the length prefixes of the format.
pub open spec fn record_bounded(r: RecordV) -> bool {
    &&& r.name.len() <= u64::MAX
    &&& r.version.len() <= u64::MAX
    &&& r.description.len() <= u64::MAX
    &&& r.url_path.len() <= u64::MAX
    &&& r.depends.len() <= u64::MAX
    &&& forall|i: int| 0 <= i < r.depends.len() ==> (#[trigger] r.depends[i]).len() <= u64::MAX
}

/// Index values the format can persist faithfully: the partition
/// invariant of the sharded index, and every length within a `u64`.
pub open spec fn views_wf_bounded(iv: Seq<Seq<RecordV>>) -> bool {
    &&& iv.len() == SHARD_COUNT
    &&& forall|k: int| 0 <= k < iv.len() ==> (#[trigger] iv[k]).len() <= u64::MAX
    &&& forall|k: int, j: int|
        0 <= k < iv.len() && 0 <= j < iv[k].len() ==> {
            &&& (#[trigger] iv[k][j]).name.len() > 0
            &&& spec_key_index(iv[k][j].name) == k
            &&& record_bounded(iv[k][j])
        }
}

/// A concatenation sitting inside a longer text splits into its parts.
proof fn lemma_split_slice(s: Seq<char>, pos: int, x: Seq<char>, y: Seq<char>)
    requires
        0 <= pos,
        pos + x.len() + y.len() <= s.len(),
        s.subrange(pos, pos + x.len() + y.len()) == x + y,
    ensures
        s.subrange(pos, pos + x.len()) == x,
        s.subrange(pos + x.len(), pos + x.len() + y.len()) == y,
{
    let whole = s.subrange(pos, pos + x.len() + y.len());
    assert forall|i: int| 0 <= i < x.len() implies s.subrange(pos, pos + x.len())[i] == x[i] by {
        assert(whole[i] == (x + y)[i]);
    }
    assert(s.subrange(pos, pos + x.len()) =~= x);
    assert forall|i: int| 0 <= i < y.len() implies s.subrange(
        pos + x.len(),
        pos + x.len() + y.len(),
    )[i] == y[i] by {
        assert(whole[x.len() + i] == (x + y)[x.len() + i]);
    }
    assert(s.subrange(pos + x.len(), pos + x.len() + y.len()) =~= y);
}

/// Decoding at an encoded number finds that number.
proof fn lemma_dec_num_at(s: Seq<char>, pos: int, n: u64)
    requires
        0 <= pos,
        pos + enc_num(n as int).len() <= s.len(),
        s.subrange(pos, pos + enc_num(n as int).len()) == enc_num(n as int),
    ensures
        dec_num(s, pos) == Some((n, pos + enc_num(n as int).len())),
{
    let d = digits_of(n as int);
    crate::digits::lemma_digits_of_props(n as int);
    assert(s.subrange(pos, pos + d.len() + 1) == d + seq![':']);
    lemma_split_slice(s, pos, d, seq![':']);
    assert(s[pos + d.len()] == ':') by {
        assert(s.subrange(pos + d.len(), pos + d.len() + 1)[0] == ':');
    }
    assert(':' as u32 == 58);
    assert(!is_digit_char(':'));
    lemma_parse_digits_of(s, pos, n);
}

/// Decoding at an encoded string finds that string.
proof fn lemma_dec_str_at(s: Seq<char>, pos: int, t: Seq<char>)
    requires
        0 <= pos,
        t.len() <= u64::MAX,
        pos + enc_str(t).len() <= s.len(),
        s.subrange(pos, pos + enc_str(t).len()) == enc_str(t),
    ensures
        dec_str(s, pos) == Some((t, pos + enc_str(t).len())),
{
    let n = t.len() as u64;
    let e_num = enc_num(t.len() as int);
    assert(s.subrange(pos, pos + e_num.len() + t.len()) == e_num + t);
    lemma_split_slice(s, pos, e_num, t);
    lemma_dec_num_at(s, pos, n);
    let p = pos + e_num.len();
    assert(s.subrange(p, p + n as int) == t);
}

/// Decoding at a run of encoded strings finds those strings.
proof fn lemma_dec_strs_at(s: Seq<char>, pos: int, ds: Seq<Seq<char>>)
    requires
        0 <= pos,
        ds.len() <= u64::MAX,
        forall|i: int| 0 <= i < ds.len() ==> (#[trigger] ds[i]).len() <= u64::MAX,
        pos + cat_strs(ds).len() <= s.len(),
        s.subrange(pos, pos + cat_strs(ds).len()) == cat_strs(ds),
    ensures
        dec_strs(s, pos, ds.len() as u64) == Some((ds, pos + cat_strs(ds).len())),
    decreases ds.len(),
{
    if ds.len() == 0 {
        assert(ds =~= Seq::<Seq<char>>::empty());
    } else {
        let t = ds.first();
        let rest = ds.drop_first();
        assert(cat_strs(ds) == enc_str(t) + cat_strs(rest));
        assert(s.subrange(pos, pos + enc_str(t).len() + cat_strs(rest).len()) == enc_str(t)
            + cat_strs(rest));
        lemma_split_slice(s, pos, enc_str(t), cat_strs(rest));
        lemma_dec_str_at(s, pos, t);
        let p = pos + enc_str(t).len();
        assert(forall|i: int| 0 <= i < rest.len() ==> (#[trigger] rest[i]).len() <= u64::MAX);
        lemma_dec_strs_at(s, p, rest);
        assert(seq![t] + rest =~= ds);
        assert((ds.len() as u64 - 1) as u64 == rest.len() as u64);
    }
}

/// Decoding at an encoded string list finds that list.
proof fn lemma_dec_str_list_at(s: Seq<char>, pos: int, ds: Seq<Seq<char>>)
    requires
        0 <= pos,
        ds.len() <= u64::MAX,
        forall|i: int| 0 <= i < ds.len() ==> (#[trigger] ds[i]).len() <= u64::MAX,
        pos + enc_str_list(ds).len() <= s.len(),
        s.subrange(pos, pos + enc_str_list(ds).len()) == enc_str_list(ds),
    ensures
        dec_str_list(s, pos) == Some((ds, pos + enc_str_list(ds).len())),
{
    let e_num = enc_num(ds.len() as int);
    assert(s.subrange(pos, pos + e_num.len() + cat_strs(ds).len()) == e_num + cat_strs(ds));
    lemma_split_slice(s, pos, e_num, cat_strs(ds));
    lemma_dec_num_at(s, pos, ds.len() as u64);
    lemma_dec_strs_at(s, pos + e_num.len(), ds);
}

/// Decoding at an encoded record finds that record.
proof fn lemma_dec_record_at(s: Seq<char>, pos: int, r: RecordV)
    requires
        0 <= pos,
        r.name.len() > 0,
        record_bounded(r),
        pos + enc_record(r).len() <= s.len(),
        s.subrange(pos, pos + enc_record(r).len()) == enc_record(r),
    ensures
        dec_record(s, pos) == Some((r, pos + enc_record(r).len())),
{
    let x1 = enc_str(r.name);
    let x2 = enc_str(r.version);
    let x3 = enc_str(r.description);
    let x4 = enc_num(r.popularity as int);
    let x5 = enc_str(r.url_path);
    let x6 = enc_str_list(r.depends);
    assert(enc_record(r) =~= x1 + (x2 + (x3 + (x4 + (x5 + x6)))));
    let p1 = pos + x1.len();
    let p2 = p1 + x2.len();
    let p3 = p2 + x3.len();
    let p4 = p3 + x4.len();
    let p5 = p4 + x5.len();
    let p6 = p5 + x6.len();
    assert(s.subrange(pos, pos + x1.len() + (x2 + (x3 + (x4 + (x5 + x6)))).len()) == x1 + (x2 + (x3
        + (x4 + (x5 + x6)))));
    lemma_split_slice(s, pos, x1, x2 + (x3 + (x4 + (x5 + x6))));
    lemma_dec_str_at(s, pos, r.name);
    lemma_split_slice(s, p1, x2, x3 + (x4 + (x5 + x6)));
    lemma_dec_str_at(s, p1, r.version);
    lemma_split_slice(s, p2, x3, x4 + (x5 + x6));
    lemma_dec_str_at(s, p2, r.description);
    lemma_split_slice(s, p3, x4, x5 + x6);
    lemma_dec_num_at(s, p3, r.popularity);
    lemma_split_slice(s, p4, x5, x6);
    lemma_dec_str_at(s, p4, r.url_path);
    lemma_dec_str_list_at(s, p5, r.depends);
    assert(dec_record(s, pos) == Some((r, p6)));
}

/// Decoding at a run of encoded records of shard `k` finds those records.
proof fn lemma_dec_records_at(s: Seq<char>, pos: int, rs: Seq<RecordV>, k: int)
    requires
        0 <= pos,
        rs.len() <= u64::MAX,
        forall|j: int|
            0 <= j < rs.len() ==> (#[trigger] rs[j]).name.len() > 0 && spec_key_index(rs[j].name)
                == k && record_bounded(rs[j]),
        pos + cat_records(rs).len() <= s.len(),
        s.subrange(pos, pos + cat_records(rs).len()) == cat_records(rs),
    ensures
        dec_records(s, pos, rs.len() as u64, k) == Some((rs, pos + cat_records(rs).len())),
    decreases rs.len(),
{
    if rs.len() == 0 {
        assert(rs =~= Seq::<RecordV>::empty());
    } else {
        let r = rs.first();
        let rest = rs.drop_first();
        assert(cat_records(rs) == enc_record(r) + cat_records(rest));
        assert(s.subrange(pos, pos + enc_record(r).len() + cat_records(rest).len()) == enc_record(
            r,
        ) + cat_records(rest));
        lemma_split_slice(s, pos, enc_record(r), cat_records(rest));
        lemma_dec_record_at(s, pos, r);
        let p = pos + enc_record(r).len();
        assert(forall|j: int|
            0 <= j < rest.len() ==> (#[trigger] rest[j]).name.len() > 0 && spec_key_index(
                rest[j].name,
            ) == k && record_bounded(rest[j]));
        lemma_dec_records_at(s, p, rest, k);
        assert(seq![r] + rest =~= rs);
        assert((rs.len() as u64 - 1) as u64 == rest.len() as u64);
    }
}

/// Decoding at an encoded shard finds that shard.
proof fn lemma_dec_shard_at(s: Seq<char>, pos: int, rs: Seq<RecordV>, k: int)
    requires
        0 <= pos,
        rs.len() <= u64::MAX,
        forall|j: int|
            0 <= j < rs.len() ==> (#[trigger] rs[j]).name.len() > 0 && spec_key_index(rs[j].name)
                == k && record_bounded(rs[j]),
        pos + enc_shard(rs).len() <= s.len(),
        s.subrange(pos, pos + enc_shard(rs).len()) == enc_shard(rs),
    ensures
        dec_shard(s, pos, k) == Some((rs, pos + enc_shard(rs).len())),
{
    let e_num = enc_num(rs.len() as int);
    assert(s.subrange(pos, pos + e_num.len() + cat_records(rs).len()) == e_num + cat_records(rs));
    lemma_split_slice(s, pos, e_num, cat_records(rs));
    lemma_dec_num_at(s, pos, rs.len() as u64);
    lemma_dec_records_at(s, pos + e_num.len(), rs, k);
}

/// Decoding at the encoded shards `k..` finds exactly those shards.
proof fn lemma_dec_shards_at(s: Seq<char>, pos: int, iv: Seq<Seq<RecordV>>, k: int)
    requires
        0 <= pos,
        views_wf_bounded(iv),
        0 <= k <= SHARD_COUNT,
        pos + cat_shards(iv.skip(k)).len() <= s.len(),
        s.subrange(pos, pos + cat_shards(iv.skip(k)).len()) == cat_shards(iv.skip(k)),
    ensures
        dec_shards(s, pos, k) == Some((iv.skip(k), pos + cat_shards(iv.skip(k)).len())),
    decreases SHARD_COUNT - k,
{
    let suffix = iv.skip(k);
    if k >= SHARD_COUNT {
        assert(suffix =~= Seq::<Seq<RecordV>>::empty());
    } else {
        let sh = iv[k];
        assert(suffix.first() == sh);
        assert(suffix.drop_first() =~= iv.skip(k + 1));
        assert(cat_shards(suffix) == enc_shard(sh) + cat_shards(iv.skip(k + 1)));
        assert(s.subrange(pos, pos + enc_shard(sh).len() + cat_shards(iv.skip(k + 1)).len())
            == enc_shard(sh) + cat_shards(iv.skip(k + 1)));
        lemma_split_slice(s, pos, enc_shard(sh), cat_shards(iv.skip(k + 1)));
        assert(forall|j: int|
            0 <= j < sh.len() ==> (#[trigger] sh[j]).name.len() > 0 && spec_key_index(sh[j].name)
                == k && record_bounded(sh[j]));
        lemma_dec_shard_at(s, pos, sh, k);
        let p = pos + enc_shard(sh).len();
        lemma_dec_shards_at(s, p, iv, k + 1);
        assert(seq![sh] + iv.skip(k + 1) =~= suffix);
    }
}

/// Round trip of the persisted cache: decoding the encoding of any
/// well-formed sharded-index value yields exactly that value. Together
/// with the partition contract of `build_index`, reloading a persisted
/// index matches partitioning the same flat record list directly.
pub proof fn lemma_encode_decode_roundtrip(iv: Seq<Seq<RecordV>>)
    requires
        views_wf_bounded(iv),
    ensures
        dec_index(enc_index(iv)) == Some(iv),
{
    let s = enc_index(iv);
    assert(iv.skip(0) =~= iv);
    assert(s.subrange(0, 0 + cat_shards(iv.skip(0)).len() as int) =~= cat_shards(iv.skip(0)));
    lemma_dec_shards_at(s, 0, iv, 0);
}

} // verus!
