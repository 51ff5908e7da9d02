//! The index store's refresh pipeline and its decisions. The caller
//! performs the network fetch and the file reads and writes; everything
//! between — decompression, decoding, parsing, partitioning, and the
//! serialized form to persist — happens here.

use vstd::prelude::*;

use vstd::utf8::{decode_utf8, valid_utf8};

use crate::codec::{enc_index, encode_index};
use crate::index::{build_index, filter_key, ShardedIndex};
use crate::jsonparse::{parse_records, spec_parse_dump};
use crate::keys::SHARD_COUNT;
use crate::record::{record_views, Record};

verus! {

/// What can go wrong while refreshing or loading the index: a transport
/// failure reported by the caller, a malformed compressed payload, or a
/// payload that is not a valid serialized record list.
#[derive(Debug, Clone, PartialEq)]
pub enum StoreError {
    NetworkError(String),
    DecompressionError,
    ParseError(String),
}

/// What the store decides to do for a load request.
#[derive(Debug, Clone, PartialEq)]
pub enum LoadAction {
    UseCache,
    Refresh,
}

/// What gzip decompression yields for a given payload: the decompressed
/// bytes, or nothing for a malformed stream.
pub uninterp spec fn gunzip_of(bytes: Seq<u8>) -> Option<Seq<u8>>;

/// Relies on flate2's GzDecoder over an in-memory slice: reading it to
/// the end decompresses the payload, and fails exactly on a malformed
/// stream; the outcome depends on the payload alone.
#[verifier::external_body]
fn gunzip(data: &Vec<u8>) -> (r: Option<Vec<u8>>)
    ensures
        match r {
            Some(out) => gunzip_of(data@) == Some(out@),
            None => gunzip_of(data@) is None,
        },
{
    let mut decoder = flate2::read::GzDecoder::new(&data[..]);
    let mut out: Vec<u8> = Vec::new();
    match std::io::Read::read_to_end(&mut decoder, &mut out) {
        Ok(_) => Some(out),
        Err(_) => None,
    }
}

/// Relies on String::from_utf8: yields the text the bytes encode, and
/// fails exactly when the bytes are not valid UTF-8.
#[verifier::external_body]
fn utf8_to_string(bytes: Vec<u8>) -> (r: Option<String>)
    ensures
        match r {
            Some(s) => valid_utf8(bytes@) && s@ == decode_utf8(bytes@),
            None => !valid_utf8(bytes@),
        },
{
    match String::from_utf8(bytes) {
        Ok(s) => Some(s),
        Err(_) => None,
    }
}

/// Decides how to serve a load request: a forced refresh or a missing
/// cache file rebuilds the index; otherwise the cache is read.
pub fn plan_load(force: bool, cache_exists: bool) -> (r: LoadAction)
    ensures
        r is Refresh <==> (force || !cache_exists),
        r is UseCache <==> (!force && cache_exists),
{
    if force || !cache_exists {
        LoadAction::Refresh
    } else {
        LoadAction::UseCache
    }
}

/// Parses the decompressed dump text and partitions it into the sharded
/// index: shard `k` holds exactly the records keyed `k`, in dump order.
/// A text that is not a valid serialized record list is an error — never
/// a silently empty index.
pub fn parse_into_alphabet_map(json_str: &str) -> (r: Result<ShardedIndex, StoreError>)
    ensures
        match r {
            Ok(idx) => {
                &&& spec_parse_dump(json_str@) is Some
                &&& idx.wf()
                &&& idx.num_shards() == SHARD_COUNT
                &&& forall|k: int|
                    0 <= k < SHARD_COUNT ==> idx.shard_at(k) == filter_key(
                        spec_parse_dump(json_str@).unwrap(),
                        k,
                    )
            },
            Err(e) => spec_parse_dump(json_str@) is None && e is ParseError,
        },
{
    let records: Vec<Record> = match parse_records(json_str) {
        None => {
            return Err(
                StoreError::ParseError(
                    String::from_str("invalid json database, not a serialized record list"),
                ),
            );
        },
        Some(rs) => rs,
    };
    proof {
        assert(record_views(records@) == spec_parse_dump(json_str@).unwrap());
    }
    Ok(build_index(&records))
}

/// Turns the compressed bytes fetched from the remote endpoint into a
/// fresh index and the exact text to persist for it: decompression,
/// text decoding, parsing and partitioning, in that order, each failure
/// reported as its own error kind.
pub fn refresh_from_payload(compressed: &Vec<u8>) -> (r: Result<(ShardedIndex, String), StoreError>)
    ensures
        match gunzip_of(compressed@) {
            None => (match r {
                Ok(_) => false,
                Err(e) => e is DecompressionError,
            }),
            Some(bytes) => {
                if !valid_utf8(bytes) {
                    match r {
                        Ok(_) => false,
                        Err(e) => e is ParseError,
                    }
                } else {
                    match spec_parse_dump(decode_utf8(bytes)) {
                        None => (match r {
                            Ok(_) => false,
                            Err(e) => e is ParseError,
                        }),
                        Some(rvs) => (match r {
                            Ok((idx, blob)) => {
                                &&& idx.wf()
                                &&& idx.num_shards() == SHARD_COUNT
                                &&& forall|k: int|
                                    0 <= k < SHARD_COUNT ==> idx.shard_at(k) == filter_key(rvs, k)
                                &&& blob@ == enc_index(idx.views())
                            },
                            Err(_) => false,
                        }),
                    }
                }
            },
        },
{
    let bytes = match gunzip(compressed) {
        None => {
            return Err(StoreError::DecompressionError);
        },
        Some(b) => b,
    };
    let text = match utf8_to_string(bytes) {
        None => {
            return Err(
                StoreError::ParseError(String::from_str("database payload is not valid text")),
            );
        },
        Some(t) => t,
    };
    let idx = match parse_into_alphabet_map(text.as_str()) {
        Err(e) => {
            return Err(e);
        },
        Ok(idx) => idx,
    };
    let blob = encode_index(&idx);
    Ok((idx, blob))
}

} // verus!
