//! Batching, paging and the reading of token metadata.

use crate::balances::accounts::types::{ImageResponse, MetadataView, ParsedMetadata};
use crate::enums::Error;
use crate::types::Page;
use mpl_token_metadata::accounts::Metadata;
use vstd::prelude::*;

verus! {

/// The text without the characters equal to `c` that it begins with.
pub open spec fn trim_start(text: Seq<char>, c: char) -> Seq<char>
    decreases text.len(),
{
    if text.len() > 0 && text[0] == c {
        trim_start(text.skip(1), c)
    } else {
        text
    }
}

/// The text without the characters equal to `c` that it ends with.
pub open spec fn trim_end(text: Seq<char>, c: char) -> Seq<char>
    decreases text.len(),
{
    if text.len() > 0 && text.last() == c {
        trim_end(text.drop_last(), c)
    } else {
        text
    }
}

/// The text without the characters equal to `c` at either end.
pub open spec fn trimmed(text: Seq<char>, c: char) -> Seq<char> {
    trim_end(trim_start(text, c), c)
}

/// A text as it was meant: without the padding of zero characters that
/// fixed-size fields carry, and without quotes around it.
pub open spec fn cleaned(text: Seq<char>) -> Seq<char> {
    trimmed(trimmed(text, '\0'), '"')
}

/// `str::trim_matches` of the standard library with a character for its
/// pattern: the slice left when every leading and every trailing occurrence of
/// the character has been removed.
#[verifier::external_body]
fn trim_matches<'a>(text: &'a str, c: char) -> (rest: &'a str)
    ensures
        rest@ == trimmed(text@, c),
{
    text.trim_matches(c)
}

/// Strips the padding and the quotes off a text read from an account.
pub fn clean_string(s: String) -> (clean: String)
    ensures
        clean@ == cleaned(s@),
{
    trim_matches(trim_matches(s.as_str(), '\0'), '"').to_owned()
}

/// The number of elements that end up in batches: all of them, or as many as
/// the limit allows.
pub open spec fn batched_len(len: int, limit: Option<u32>) -> int {
    match limit {
        Some(limit) => if limit < len {
            limit as int
        } else {
            len
        },
        None => len,
    }
}

/// The number of batches. Without a limit that cuts the elements short there
/// are as many as it takes to hold them all. With one, the batches run up to
/// and including the one that the limit cuts, which is empty where the limit
/// falls on the end of a batch.
pub open spec fn batch_count(len: int, batch_size: int, limit: Option<u32>) -> int {
    if batched_len(len, limit) < len {
        batched_len(len, limit) / batch_size + 1
    } else {
        (len + batch_size - 1) / batch_size
    }
}

/// The position in the input of the first element of batch `k`.
pub open spec fn batch_start(k: int, batch_size: int) -> int {
    k * batch_size
}

/// The position in the input just past the last element of batch `k`.
pub open spec fn batch_end(k: int, len: int, batch_size: int, limit: Option<u32>) -> int {
    if (k + 1) * batch_size <= batched_len(len, limit) {
        (k + 1) * batch_size
    } else {
        batched_len(len, limit)
    }
}

/// Clones of the elements from `from` up to `to`.
fn clone_range<T: Clone>(arr: &Vec<T>, from: usize, to: usize) -> (batch: Vec<T>)
    requires
        from <= to <= arr@.len(),
    ensures
        batch@.len() == to - from,
        forall|m: int| 0 <= m < batch@.len() ==> cloned(arr@[from + m], #[trigger] batch@[m]),
{
    let mut batch: Vec<T> = Vec::new();
    let mut j: usize = from;
    while j < to
        invariant
            from <= j <= to <= arr@.len(),
            batch@.len() == j - from,
            forall|m: int| 0 <= m < batch@.len() ==> cloned(arr@[from + m], #[trigger] batch@[m]),
        decreases to - j,
    {
        batch.push(arr[j].clone());
        j += 1;
    }
    batch
}

/// Where the batch count stands once `n` full batches have covered the first
/// `n * batch_size` elements.
proof fn lemma_batch_count(len: int, batch_size: int, limit: Option<u32>, n: int, covered: int)
    requires
        batch_size > 0,
        0 <= n,
        0 <= len,
        covered == n * batch_size,
    ensures
        (n + 1) * batch_size == covered + batch_size,
        covered <= batched_len(len, limit) < covered + batch_size && batched_len(len, limit) < len
            ==> batch_count(len, batch_size, limit) == n + 1,
        covered < len <= covered + batch_size && batched_len(len, limit) == len ==> batch_count(
            len,
            batch_size,
            limit,
        ) == n + 1,
        covered == len && batched_len(len, limit) == len ==> batch_count(len, batch_size, limit)
            == n,
{
    let kept = batched_len(len, limit);
    assert((n + 1) * batch_size == n * batch_size + batch_size) by (nonlinear_arith);
    if covered <= kept < covered + batch_size {
        assert(kept / batch_size == n) by (nonlinear_arith)
            requires
                batch_size > 0,
                n * batch_size <= kept < n * batch_size + batch_size,
        ;
    }
    if covered < len <= covered + batch_size {
        assert((len + batch_size - 1) / batch_size == n + 1) by (nonlinear_arith)
            requires
                batch_size > 0,
                n * batch_size < len <= n * batch_size + batch_size,
        ;
    }
    if covered == len {
        assert((len + batch_size - 1) / batch_size == n) by (nonlinear_arith)
            requires
                batch_size > 0,
                n * batch_size == len,
        ;
    }
}

/// Splits `arr` into batches of `batch_size` elements, the last one shorter
/// if the elements run out. With a `limit`, no more than that many elements
/// are batched: the batch in which the limit is reached is cut there and is
/// the last.
pub fn create_batches<T: Clone>(arr: &Vec<T>, batch_size: usize, limit: Option<u32>) -> (batches:
    Vec<Vec<T>>)
    requires
        batch_size > 0,
    ensures
        batches@.len() == batch_count(arr@.len() as int, batch_size as int, limit),
        forall|k: int|
            0 <= k < batches@.len() ==> (#[trigger] batches@[k])@.len() == batch_end(
                k,
                arr@.len() as int,
                batch_size as int,
                limit,
            ) - batch_start(k, batch_size as int),
        forall|k: int, m: int|
            0 <= k < batches@.len() && 0 <= m < batches@[k]@.len() ==> cloned(
                arr@[batch_start(k, batch_size as int) + m],
                #[trigger] batches@[k]@[m],
            ),
{
    let len = arr.len();
    let ghost kept = batched_len(len as int, limit);
    let mut batches: Vec<Vec<T>> = Vec::new();
    let mut i: usize = 0;
    proof {
        lemma_batch_count(len as int, batch_size as int, limit, 0, 0);
    }
    assert(0 == batches@.len() * batch_size) by (nonlinear_arith)
        requires
            batches@.len() == 0,
    ;
    while i < len
        invariant_except_break
            i == len || i == batches@.len() * batch_size,
            i == len ==> batches@.len() == batch_count(len as int, batch_size as int, limit),
        invariant
            batch_size > 0,
            len == arr@.len(),
            kept == batched_len(len as int, limit),
            i <= len,
            i <= kept,
            forall|k: int|
                0 <= k < batches@.len() ==> (#[trigger] batches@[k])@.len() == batch_end(
                    k,
                    len as int,
                    batch_size as int,
                    limit,
                ) - batch_start(k, batch_size as int),
            forall|k: int, m: int|
                0 <= k < batches@.len() && 0 <= m < batches@[k]@.len() ==> cloned(
                    arr@[batch_start(k, batch_size as int) + m],
                    #[trigger] batches@[k]@[m],
                ),
        ensures
            batches@.len() == batch_count(len as int, batch_size as int, limit),
            forall|k: int|
                0 <= k < batches@.len() ==> (#[trigger] batches@[k])@.len() == batch_end(
                    k,
                    len as int,
                    batch_size as int,
                    limit,
                ) - batch_start(k, batch_size as int),
            forall|k: int, m: int|
                0 <= k < batches@.len() && 0 <= m < batches@[k]@.len() ==> cloned(
                    arr@[batch_start(k, batch_size as int) + m],
                    #[trigger] batches@[k]@[m],
                ),
        decreases len - i,
    {
        let ghost n = batches@.len() as int;
        let ghost before = batches@;
        proof {
            lemma_batch_count(len as int, batch_size as int, limit, n, i as int);
        }
        let end = if batch_size >= len - i {
            len
        } else {
            i + batch_size
        };
        let mut cut = false;
        let mut stop = end;
        if let Some(limit) = limit {
            let remaining_limit = limit as usize - i;
            if end - i > remaining_limit {
                stop = i + remaining_limit;
                cut = true;
            }
        }
        let batch = clone_range(arr, i, stop);
        assert(stop == batch_end(n, len as int, batch_size as int, limit));
        batches.push(batch);
        assert(forall|k: int| 0 <= k < n ==> batches@[k] == before[k]);
        if cut {
            break ;
        }
        i = end;
    }
    batches
}

/// Validates a page of a transaction history: its end may not lie before its
/// start, and both have to be positions that a list can have.
pub fn parse_page(index: Option<(u64, u64)>) -> (page: Result<Option<Page>, Error>)
    ensures
        match index {
            None => page == Ok::<Option<Page>, Error>(None),
            Some((start_idx, end_idx)) => if end_idx < start_idx || end_idx > usize::MAX {
                page == Err::<Option<Page>, Error>(Error::InvalidIndex)
            } else {
                page == Ok::<Option<Page>, Error>(
                    Some(Page { start_idx: start_idx as usize, end_idx: end_idx as usize }),
                )
            },
        },
{
    match index {
        None => Ok(None),
        Some((start_idx, end_idx)) => {
            if end_idx < start_idx || end_idx > usize::MAX as u64 {
                return Err(Error::InvalidIndex);
            }
            Ok(Some(Page { start_idx: start_idx as usize, end_idx: end_idx as usize }))
        },
    }
}

/// The metadata with every text cleaned.
pub open spec fn cleaned_metadata(name: Seq<char>, symbol: Seq<char>, uri: Seq<char>) -> MetadataView {
    MetadataView { name: cleaned(name), symbol: cleaned(symbol), uri: cleaned(uri) }
}

/// Parses the given metadata.
pub fn parse_metadata(name: String, symbol: String, uri: String) -> (metadata: ParsedMetadata)
    ensures
        metadata@ == cleaned_metadata(name@, symbol@, uri@),
{
    ParsedMetadata { name: clean_string(name), symbol: clean_string(symbol), uri: clean_string(uri) }
}

/// The name, symbol and address of further description stored in the data of
/// a metadata account, if the data holds a metadata record.
pub uninterp spec fn metadata_fields(data: Seq<u8>) -> Option<(Seq<char>, Seq<char>, Seq<char>)>;

/// `Metadata::safe_deserialize` of `mpl_token_metadata`: whether it reads the
/// data, and the three texts of the record it reads, depend on the data alone.
/// Nothing more is claimed of it.
#[verifier::external_body]
fn deserialize_metadata(data: &[u8]) -> (fields: Option<(String, String, String)>)
    ensures
        match fields {
            Some((name, symbol, uri)) => metadata_fields(data@) == Some((name@, symbol@, uri@)),
            None => metadata_fields(data@).is_none(),
        },
{
    match Metadata::safe_deserialize(data) {
        Ok(metadata) => Some((metadata.name, metadata.symbol, metadata.uri)),
        Err(_) => None,
    }
}

/// The metadata that the outcome of fetching a metadata account stands for:
/// the cleaned record if the account was fetched and holds one, and nothing
/// known otherwise.
pub open spec fn account_metadata(account: Result<Seq<u8>, Error>) -> MetadataView {
    match account {
        Ok(data) => match metadata_fields(data) {
            Some((name, symbol, uri)) => cleaned_metadata(name, symbol, uri),
            None => MetadataView::unknown(),
        },
        Err(_) => MetadataView::unknown(),
    }
}

/// Reads the metadata of a token from the outcome of fetching its metadata
/// account.
pub fn metadata_from_account(account: &Result<Vec<u8>, Error>) -> (metadata: ParsedMetadata)
    ensures
        metadata@ == account_metadata(
            match *account {
                Ok(data) => Ok(data@),
                Err(error) => Err(error),
            },
        ),
{
    match account {
        Ok(data) => match deserialize_metadata(data.as_slice()) {
            Some((name, symbol, uri)) => parse_metadata(name, symbol, uri),
            None => ParsedMetadata::default(),
        },
        Err(_) => ParsedMetadata::default(),
    }
}

/// Whether two texts are the same.
pub fn same_text(a: &str, b: &str) -> (same: bool)
    ensures
        same == (a@ == b@),
{
    a.to_owned() == b.to_owned()
}

/// The image of the token named `RCL`.
pub const RCL_IMAGE: &'static str =
    "https://ipfs.io/ipfs/Qme9ErqmQaznzpfDACncEW48NyXJPFP7HgzfoNdto9xQ9P/02.jpg";

/// The image that is known beforehand for a symbol, given the images of
/// `USDC` and `SOL`.
pub open spec fn known_image(symbol: Seq<char>, usdc_image: Seq<char>, sol_image: Seq<char>) -> Option<
    Seq<char>,
> {
    if symbol == "USDC"@ {
        Some(usdc_image)
    } else if symbol == "RCL"@ {
        Some(RCL_IMAGE@)
    } else if symbol == "SOL"@ {
        Some(sol_image)
    } else {
        None
    }
}

/// The image known beforehand for the token with the given symbol, if any.
pub fn predefined_image(symbol: &str, usdc_image: &str, sol_image: &str) -> (image: Option<String>)
    ensures
        match image {
            Some(url) => known_image(symbol@, usdc_image@, sol_image@) == Some(url@),
            None => known_image(symbol@, usdc_image@, sol_image@).is_none(),
        },
{
    if same_text(symbol, "USDC") {
        Some(usdc_image.to_owned())
    } else if same_text(symbol, "RCL") {
        Some(RCL_IMAGE.to_owned())
    } else if same_text(symbol, "SOL") {
        Some(sol_image.to_owned())
    } else {
        None
    }
}

/// The image to use once the document behind a token's metadata has been
/// asked for: the one it names, or none, written as the empty text, if the
/// document could not be had or read.
pub fn fetched_image(response: Option<ImageResponse>) -> (image: String)
    ensures
        match response {
            Some(document) => image@ == document.image@,
            None => image@ == Seq::<char>::empty(),
        },
{
    match response {
        Some(document) => document.image,
        None => String::new(),
    }
}

} // verus!
