//! The fixed table that maps a lowercased extension to a category name.

use vstd::prelude::*;
use vstd::utf8::{decode_utf8, is_ascii_chars, valid_utf8};

verus! {

/// What `str::to_lowercase` returns for a string with characters `s`.
pub uninterp spec fn lower_of(s: Seq<char>) -> Seq<char>;

/// ASCII lowercasing of one character; every other character is kept.
pub open spec fn ascii_lower_char(c: char) -> char {
    if 'A' <= c <= 'Z' {
        ((c as u8) + 32) as u8 as char
    } else {
        c
    }
}

/// ASCII lowercasing of a string.
pub open spec fn ascii_lower(s: Seq<char>) -> Seq<char> {
    s.map_values(|c: char| ascii_lower_char(c))
}

/// The lowercase form of an extension's text: plain ASCII lowercasing where
/// the text is ASCII, Unicode lowercasing otherwise.
pub open spec fn lowered(s: Seq<char>) -> Seq<char> {
    if is_ascii_chars(s) {
        ascii_lower(s)
    } else {
        lower_of(s)
    }
}

/// The category of files without an extension.
pub open spec fn no_extension() -> Seq<char> {
    "No Extension"@
}

/// The fixed table, in order: lowercase extension, category.
pub open spec fn category_table() -> Seq<(Seq<char>, Seq<char>)> {
    seq![
        ("jpg"@, "Images"@),
        ("png"@, "Images"@),
        ("mp4"@, "Videos"@),
        ("mkv"@, "Videos"@),
        ("mp3"@, "Audio"@),
        ("wav"@, "Audio"@),
        ("pdf"@, "Documents"@),
        ("docx"@, "Documents"@),
        ("xlsx"@, "Documents"@),
        ("pptx"@, "Documents"@),
        ("csv"@, "Documents"@),
        ("doc"@, "Documents"@),
        ("zip"@, "Compressed"@),
        ("rar"@, "Compressed"@),
        ("7z"@, "Compressed"@),
        ("exe"@, "Programs"@),
        ("msi"@, "Programs"@),
    ]
}

/// The category of the first row of `table`, from row `i` on, whose
/// extension is `key`.
pub open spec fn lookup_from(table: Seq<(Seq<char>, Seq<char>)>, key: Seq<char>, i: int) -> Option<
    Seq<char>,
>
    decreases table.len() - i,
{
    if i < 0 || i >= table.len() {
        None
    } else if table[i].0 == key {
        Some(table[i].1)
    } else {
        lookup_from(table, key, i + 1)
    }
}

/// The category that the table gives a lowercase extension, if any.
pub open spec fn table_lookup(key: Seq<char>) -> Option<Seq<char>> {
    lookup_from(category_table(), key, 0)
}

/// The category of a lowercased extension: "No Extension" when it is empty,
/// the table's category when the table has it, else the extension itself.
pub open spec fn category_of(lowercase: Seq<char>) -> Seq<char> {
    if lowercase.len() == 0 {
        no_extension()
    } else {
        match table_lookup(lowercase) {
            Some(c) => c,
            None => lowercase,
        }
    }
}

/// The category of an extension's text, before any lowercasing.
pub open spec fn extension_category(text: Seq<char>) -> Seq<char> {
    if text.len() == 0 {
        no_extension()
    } else {
        match table_lookup(lowered(text)) {
            Some(c) => c,
            None => lowered(text),
        }
    }
}

/// The category of an extension given as raw bytes, or `None` when the
/// bytes are not UTF-8 text.
pub open spec fn extension_bytes_category(ext: Seq<u8>) -> Option<Seq<char>> {
    if valid_utf8(ext) {
        Some(extension_category(decode_utf8(ext)))
    } else {
        None
    }
}

/// Relies on `str::to_lowercase`: the result depends on the characters
/// alone, ASCII letters lowercase as in ASCII, and every character yields at
/// least one, so only the empty string gives the empty string.
#[verifier::external_body]
fn lowercase(s: &str) -> (r: String)
    ensures
        r@ == lower_of(s@),
        is_ascii_chars(s@) ==> r@ == ascii_lower(s@),
        s@.len() == 0 <==> r@.len() == 0,
{
    s.to_lowercase()
}

/// Relies on `String::from_utf8`: it succeeds exactly on valid UTF-8 and
/// then holds the characters those bytes encode.
#[verifier::external_body]
fn decode_text(bytes: Vec<u8>) -> (r: Option<String>)
    ensures
        r is Some <==> valid_utf8(bytes@),
        r matches Some(s) ==> s@ == decode_utf8(bytes@),
{
    String::from_utf8(bytes).ok()
}

fn push_row(table: &mut Vec<(String, String)>, ext: &str, category: &str)
    ensures
        final(table)@.len() == old(table)@.len() + 1,
        forall|i: int| 0 <= i < old(table)@.len() ==> #[trigger] final(table)@[i] == old(table)@[i],
        final(table)@.last().0@ == ext@,
        final(table)@.last().1@ == category@,
{
    table.push((String::from_str(ext), String::from_str(category)));
}

/// True when `rows` holds the rows of the fixed table, as strings.
pub open spec fn is_category_table(rows: Seq<(String, String)>) -> bool {
    &&& rows.len() == category_table().len()
    &&& forall|i: int|
        0 <= i < rows.len() ==> (#[trigger] rows[i]).0@ == category_table()[i].0 && rows[i].1@
            == category_table()[i].1
}

/// The fixed table: pairs of a lowercase extension and its category.
pub fn category_rows() -> (r: Vec<(String, String)>)
    ensures
        is_category_table(r@),
{
    let mut t: Vec<(String, String)> = Vec::new();
    push_row(&mut t, "jpg", "Images");
    push_row(&mut t, "png", "Images");
    push_row(&mut t, "mp4", "Videos");
    push_row(&mut t, "mkv", "Videos");
    push_row(&mut t, "mp3", "Audio");
    push_row(&mut t, "wav", "Audio");
    push_row(&mut t, "pdf", "Documents");
    push_row(&mut t, "docx", "Documents");
    push_row(&mut t, "xlsx", "Documents");
    push_row(&mut t, "pptx", "Documents");
    push_row(&mut t, "csv", "Documents");
    push_row(&mut t, "doc", "Documents");
    push_row(&mut t, "zip", "Compressed");
    push_row(&mut t, "rar", "Compressed");
    push_row(&mut t, "7z", "Compressed");
    push_row(&mut t, "exe", "Programs");
    push_row(&mut t, "msi", "Programs");
    t
}

/// The category of an already lowercased extension.
pub fn category_of_lowercase(lowercase: &String) -> (r: String)
    ensures
        r@ == category_of(lowercase@),
{
    if lowercase.as_str().is_empty() {
        return String::from_str("No Extension");
    }
    let rows = category_rows();
    let ghost table = category_table();
    let mut i: usize = 0;
    while i < rows.len()
        invariant
            0 <= i <= rows@.len(),
            is_category_table(rows@),
            table == category_table(),
            lowercase@.len() != 0,
            lookup_from(table, lowercase@, i as int) == table_lookup(lowercase@),
        decreases rows@.len() - i,
    {
        if rows[i].0 == *lowercase {
            assert(lookup_from(table, lowercase@, i as int) == Some(table[i as int].1));
            return rows[i].1.clone();
        }
        i = i + 1;
    }
    lowercase.clone()
}

/// The category of an extension's text: it is lowercased, then looked up.
pub fn category_of_extension(text: &str) -> (r: String)
    ensures
        r@ == extension_category(text@),
{
    let low = lowercase(text);
    category_of_lowercase(&low)
}

/// The category of an extension given as raw bytes, or `None` when the bytes
/// are not UTF-8 text.
pub fn category_of_extension_bytes(ext: &[u8]) -> (r: Option<String>)
    ensures
        match r {
            Some(c) => extension_bytes_category(ext@) == Some(c@),
            None => extension_bytes_category(ext@) is None,
        },
{
    let mut owned: Vec<u8> = Vec::new();
    let mut i: usize = 0;
    while i < ext.len()
        invariant
            i <= ext@.len(),
            owned@ == ext@.subrange(0, i as int),
        decreases ext@.len() - i,
    {
        owned.push(ext[i]);
        i = i + 1;
        assert(owned@ =~= ext@.subrange(0, i as int));
    }
    assert(owned@ =~= ext@);
    match decode_text(owned) {
        Some(text) => Some(category_of_extension(text.as_str())),
        None => None,
    }
}

} // verus!
