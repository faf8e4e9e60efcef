//! The request to the catalog of the cluster and the rows it answers with.

use crate::configuration::texts_of;
use crate::elasticsearch::{CatIndexResult, IndexStats};
use crate::template::chars_of;
use vstd::prelude::*;
use vstd::string::*;

verus! {

/// Why the indexes of a group could not be had.
#[derive(Debug)]
pub enum FetchError {
    /// The base URL and the index patterns do not make a URL.
    InvalidUrl,
    /// The request could not be sent, or no answer came.
    Transport(String),
    /// The cluster answered with this status, which is no success.
    Status(u16),
    /// The answer is no list of rows, or this field of a row is no count.
    MalformedPayload(String),
}

/// The parts in their order, with the separator between each two.
pub open spec fn joined(parts: Seq<Seq<char>>, separator: Seq<char>) -> Seq<char>
    decreases parts.len(),
{
    if parts.len() == 0 {
        Seq::empty()
    } else if parts.len() == 1 {
        parts[0]
    } else {
        joined(parts.drop_last(), separator) + separator + parts.last()
    }
}

/// The index patterns as one multi-target expression: joined by commas.
pub fn join_patterns(index_patterns: &Vec<String>) -> (target: String)
    ensures
        target@ == joined(texts_of(index_patterns@), seq![',']),
{
    let ghost parts = texts_of(index_patterns@);
    let mut target = String::new();
    let mut i: usize = 0;
    while i < index_patterns.len()
        invariant
            i <= index_patterns.len(),
            parts == texts_of(index_patterns@),
            target@ == joined(parts.take(i as int), seq![',']),
        decreases index_patterns.len() - i,
    {
        proof {
            reveal_strlit(",");
            assert(parts.take(i + 1).drop_last() =~= parts.take(i as int));
            assert(","@ =~= seq![',']);
        }
        if i > 0 {
            target.append(",");
        }
        target.append(index_patterns[i].as_str());
        i += 1;
    }
    assert(parts.take(index_patterns.len() as int) =~= parts);
    target
}

/// What `Url::join` makes of a reference against the URL that `Url::parse`
/// reads from `base`, serialised; `None` where either refuses.
pub uninterp spec fn url_joined(base: Seq<char>, reference: Seq<char>) -> Option<Seq<char>>;

/// Parses `base` with `reqwest::Url::parse`, resolves `reference` against it
/// with `Url::join`, and hands out the serialisation of the result.
/// Trusted: the outcome is what `url_joined` names, `None` standing for a
/// refusal by either call.
#[verifier::external_body]
fn join_url(base: &str, reference: &str) -> (url: Option<String>)
    ensures
        match url {
            Some(url) => url_joined(base@, reference@) == Some(url@),
            None => url_joined(base@, reference@) is None,
        },
{
    reqwest::Url::parse(base).ok()?.join(reference).ok().map(String::from)
}

/// The URL at which the catalog lists the indexes that match the patterns:
/// `_cat/indices/` resolved against the base URL, and the joined patterns
/// resolved against that.
pub open spec fn cat_indices_url_of(base_url: Seq<char>, index_patterns: Seq<Seq<char>>) -> Option<
    Seq<char>,
> {
    match url_joined(base_url, "_cat/indices/"@) {
        Some(catalog) => url_joined(catalog, joined(index_patterns, seq![','])),
        None => None,
    }
}

/// The URL at which the catalog lists the indexes that match the patterns.
pub fn cat_indices_url(base_url: &str, index_patterns: &Vec<String>) -> (url: Result<
    String,
    FetchError,
>)
    ensures
        match url {
            Ok(url) => cat_indices_url_of(base_url@, texts_of(index_patterns@)) == Some(url@),
            Err(e) => e is InvalidUrl && cat_indices_url_of(base_url@, texts_of(index_patterns@))
                is None,
        },
{
    match join_url(base_url, "_cat/indices/") {
        Some(catalog) => {
            let target = join_patterns(index_patterns);
            match join_url(catalog.as_str(), target.as_str()) {
                Some(url) => Ok(url),
                None => Err(FetchError::InvalidUrl),
            }
        },
        None => Err(FetchError::InvalidUrl),
    }
}

/// The value of a decimal digit.
pub open spec fn digit_value(c: char) -> Option<nat> {
    if '0' <= c && c <= '9' {
        Some((c as nat - '0' as nat) as nat)
    } else {
        None
    }
}

/// Every character is a decimal digit.
pub open spec fn all_digits(text: Seq<char>) -> bool {
    forall|i: int| 0 <= i < text.len() ==> digit_value(#[trigger] text[i]) is Some
}

/// The number that a sequence of decimal digits writes.
pub open spec fn digits_value(text: Seq<char>) -> nat
    decreases text.len(),
{
    if text.len() == 0 {
        0
    } else {
        digits_value(text.drop_last()) * 10 + match digit_value(text.last()) {
            Some(d) => d,
            None => 0,
        }
    }
}

/// The count that a text writes: one or more decimal digits, and nothing
/// else, whose number fits a `u64`.
pub open spec fn count_of(text: Seq<char>) -> Option<u64> {
    if text.len() > 0 && all_digits(text) && digits_value(text) <= u64::MAX {
        Some(digits_value(text) as u64)
    } else {
        None
    }
}

/// More digits do not write a smaller number.
proof fn lemma_digits_value_grows(text: Seq<char>, n: int)
    requires
        0 <= n <= text.len(),
    ensures
        digits_value(text.take(n)) <= digits_value(text),
    decreases text.len() - n,
{
    if n < text.len() {
        lemma_digits_value_grows(text, n + 1);
        assert(text.take(n + 1).drop_last() =~= text.take(n));
    } else {
        assert(text.take(n) =~= text);
    }
}

/// Reads a count as the catalog writes it.
pub fn parse_count(text: &str) -> (count: Option<u64>)
    ensures
        count == count_of(text@),
{
    let chars = chars_of(text);
    if chars.len() == 0 {
        return None;
    }
    let mut value: u64 = 0;
    let mut i: usize = 0;
    while i < chars.len()
        invariant
            i <= chars.len(),
            chars@ == text@,
            all_digits(chars@.take(i as int)),
            value == digits_value(chars@.take(i as int)),
        decreases chars.len() - i,
    {
        let c = chars[i];
        proof {
            assert(chars@.take(i + 1).drop_last() =~= chars@.take(i as int));
            assert(chars@.take(i + 1).last() == c);
            lemma_digits_value_grows(chars@, i + 1);
        }
        if !('0' <= c && c <= '9') {
            assert(digit_value(chars@[i as int]) is None);
            return None;
        }
        let digit = (c as u32 - '0' as u32) as u64;
        match value.checked_mul(10) {
            Some(shifted) => match shifted.checked_add(digit) {
                Some(next) => {
                    value = next;
                },
                None => {
                    return None;
                },
            },
            None => {
                return None;
            },
        }
        proof {
            assert forall|j: int| 0 <= j < i + 1 implies digit_value(
                #[trigger] chars@.take(i + 1)[j],
            ) is Some by {
                if j < i {
                    assert(chars@.take(i as int)[j] == chars@.take(i + 1)[j]);
                }
            }
        }
        i += 1;
    }
    assert(chars@.take(chars.len() as int) =~= chars@);
    Some(value)
}

/// The statistics that a row of the catalog's answer writes, with each
/// count as text; or the name of the first field that holds no count.
pub open spec fn row_of(
    index: Seq<char>,
    docs_count: Seq<char>,
    docs_deleted: Seq<char>,
    store_size: Seq<char>,
    pri_store_size: Seq<char>,
) -> Result<IndexStats, Seq<char>> {
    if count_of(docs_count) is None {
        Err("docs.count"@)
    } else if count_of(docs_deleted) is None {
        Err("docs.deleted"@)
    } else if count_of(store_size) is None {
        Err("store.size"@)
    } else if count_of(pri_store_size) is None {
        Err("pri.store.size"@)
    } else {
        Ok(
            IndexStats {
                index,
                docs_count: count_of(docs_count)->0 as nat,
                docs_deleted: count_of(docs_deleted)->0 as nat,
                store_size: count_of(store_size)->0 as nat,
                pri_store_size: count_of(pri_store_size)->0 as nat,
            },
        )
    }
}

impl CatIndexResult {
    /// Reads a row of the catalog's answer, in which every count is text.
    pub fn from_catalog_row(
        index: String,
        docs_count: &str,
        docs_deleted: &str,
        store_size: &str,
        pri_store_size: &str,
    ) -> (row: Result<CatIndexResult, FetchError>)
        ensures
            match row {
                Ok(row) => row_of(
                    index@,
                    docs_count@,
                    docs_deleted@,
                    store_size@,
                    pri_store_size@,
                ) == Ok::<IndexStats, Seq<char>>(row@),
                Err(FetchError::MalformedPayload(field)) => row_of(
                    index@,
                    docs_count@,
                    docs_deleted@,
                    store_size@,
                    pri_store_size@,
                ) == Err::<IndexStats, Seq<char>>(field@),
                Err(_) => false,
            },
    {
        let docs_count = match parse_count(docs_count) {
            Some(count) => count,
            None => {
                return Err(FetchError::MalformedPayload("docs.count".to_owned()));
            },
        };
        let docs_deleted = match parse_count(docs_deleted) {
            Some(count) => count,
            None => {
                return Err(FetchError::MalformedPayload("docs.deleted".to_owned()));
            },
        };
        let store_size = match parse_count(store_size) {
            Some(count) => count,
            None => {
                return Err(FetchError::MalformedPayload("store.size".to_owned()));
            },
        };
        let pri_store_size = match parse_count(pri_store_size) {
            Some(count) => count,
            None => {
                return Err(FetchError::MalformedPayload("pri.store.size".to_owned()));
            },
        };
        Ok(CatIndexResult { index, docs_count, docs_deleted, store_size, pri_store_size })
    }
}

} // verus!
