//! The wire contract with the remote account store: how stored documents are
//! named and what the store reports of them.

pub mod rate_limit;
pub mod retry;

use vstd::prelude::*;
use vstd::string::StringExecFns;

verus! {

/// A document stored in the remote account.
#[derive(Debug, Clone)]
pub struct TelegramMessage {
    /// Handle of the document.
    pub id: i32,
    /// File name (if document).
    pub filename: Option<String>,
    /// File size in bytes.
    pub size: u64,
    /// Message date.
    pub date: i64,
}

/// A decimal digit as text.
pub open spec fn digit_text(d: int) -> Seq<char> {
    if d == 0 {
        "0"@
    } else if d == 1 {
        "1"@
    } else if d == 2 {
        "2"@
    } else if d == 3 {
        "3"@
    } else if d == 4 {
        "4"@
    } else if d == 5 {
        "5"@
    } else if d == 6 {
        "6"@
    } else if d == 7 {
        "7"@
    } else if d == 8 {
        "8"@
    } else {
        "9"@
    }
}

/// The decimal numeral of `n`, without leading zeros.
pub open spec fn decimal(n: u8) -> Seq<char> {
    if n >= 100 {
        digit_text(n as int / 100) + digit_text((n as int / 10) % 10) + digit_text(n as int % 10)
    } else if n >= 10 {
        digit_text(n as int / 10) + digit_text(n as int % 10)
    } else {
        digit_text(n as int)
    }
}

/// File name of the document that holds chunk `chunk_id`.
pub open spec fn chunk_name(chunk_id: Seq<char>) -> Seq<char> {
    "chunk_"@ + chunk_id
}

/// File name of the document that holds block `block_index` of the stripe
/// of chunk `chunk_id`.
pub open spec fn block_name(chunk_id: Seq<char>, block_index: u8) -> Seq<char> {
    "chunk_"@ + chunk_id + "_"@ + decimal(block_index)
}

/// File name of the metadata document `name`.
pub open spec fn metadata_name(name: Seq<char>) -> Seq<char> {
    "meta_"@ + name
}

/// File name of the snapshot `snapshot_id` of namespace `namespace`.
pub open spec fn snapshot_name(namespace: Seq<char>, snapshot_id: Seq<char>) -> Seq<char> {
    "tgfs_snapshot_"@ + namespace + "_"@ + snapshot_id
}

/// Append one decimal digit.
fn append_digit(text: &mut String, d: u8)
    requires
        d < 10,
    ensures
        final(text)@ == old(text)@ + digit_text(d as int),
{
    if d == 0 {
        text.append("0");
    } else if d == 1 {
        text.append("1");
    } else if d == 2 {
        text.append("2");
    } else if d == 3 {
        text.append("3");
    } else if d == 4 {
        text.append("4");
    } else if d == 5 {
        text.append("5");
    } else if d == 6 {
        text.append("6");
    } else if d == 7 {
        text.append("7");
    } else if d == 8 {
        text.append("8");
    } else {
        text.append("9");
    }
}

/// Append the decimal numeral of `n`.
fn append_decimal(text: &mut String, n: u8)
    ensures
        final(text)@ == old(text)@ + decimal(n),
{
    if n >= 100 {
        append_digit(text, n / 100);
        append_digit(text, (n / 10) % 10);
        append_digit(text, n % 10);
        assert(text@ =~= old(text)@ + decimal(n));
    } else if n >= 10 {
        append_digit(text, n / 10);
        append_digit(text, n % 10);
        assert(text@ =~= old(text)@ + decimal(n));
    } else {
        append_digit(text, n);
    }
}

/// File name of the document that holds a chunk.
pub fn chunk_file_name(chunk_id: &str) -> (r: String)
    ensures
        r@ == chunk_name(chunk_id@),
{
    let mut name = String::from_str("chunk_");
    name.append(chunk_id);
    name
}

/// File name of the document that holds one block of a chunk's stripe.
pub fn block_file_name(chunk_id: &str, block_index: u8) -> (r: String)
    ensures
        r@ == block_name(chunk_id@, block_index),
{
    let mut name = String::from_str("chunk_");
    name.append(chunk_id);
    name.append("_");
    append_decimal(&mut name, block_index);
    name
}

/// File name of a metadata document.
pub fn metadata_file_name(name: &str) -> (r: String)
    ensures
        r@ == metadata_name(name@),
{
    let mut file_name = String::from_str("meta_");
    file_name.append(name);
    file_name
}

/// File name of a snapshot document.
pub fn snapshot_file_name(namespace: &str, snapshot_id: &str) -> (r: String)
    ensures
        r@ == snapshot_name(namespace@, snapshot_id@),
{
    let mut name = String::from_str("tgfs_snapshot_");
    name.append(namespace);
    name.append("_");
    name.append(snapshot_id);
    name
}

} // verus!
