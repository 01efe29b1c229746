//! The pages of a help book: the ZIP archive stored in the book's
//! `FileStorage` element, read with the `zip` crate. What the archive holds is
//! named once, and every read is stated over that name.

use vstd::prelude::*;
use vstd::utf8::{decode_utf8, valid_utf8};
use std::io::{Cursor, Read};
use zip::ZipArchive;
use crate::container::{container_items, container_refusal, parse, ContainerError};
use crate::text::{chars_of, debug_quoted, debug_text, decimal, push_decimal, push_str, same_text, string_of};

verus! {

#[verifier::external_type_specification]
#[verifier::external_body]
#[verifier::reject_recursive_types(T)]
pub struct ExCursor<T>(std::io::Cursor<T>);

#[verifier::external_type_specification]
#[verifier::external_body]
#[verifier::reject_recursive_types(R)]
pub struct ExZipArchive<R>(zip::ZipArchive<R>);

/// An archive of help pages, read from memory.
pub type Storage = ZipArchive<Cursor<Vec<u8>>>;

/// The entries of an archive, in the order of its central directory: the
/// entry's name when the entry can be opened, and its bytes when it can also
/// be read to the end.
pub uninterp spec fn archive_entries(a: ZipArchive<Cursor<Vec<u8>>>) -> Seq<(Option<Seq<char>>, Option<Seq<u8>>)>;

/// The entries that `ZipArchive::new` finds in these bytes; `None` when they
/// are not a ZIP archive it can read.
pub uninterp spec fn zip_listing(bytes: Seq<u8>) -> Option<Seq<(Option<Seq<char>>, Option<Seq<u8>>)>>;

/// The text that `String::from_utf8_lossy` makes of these bytes.
pub uninterp spec fn utf8_lossy(bytes: Seq<u8>) -> Seq<char>;

/// An archive over the bytes.
///
/// Trusted: `zip::ZipArchive::new` over an in-memory cursor; `None` when it
/// reports an error. The entries of the archive are those it lists for these
/// bytes.
#[verifier::external_body]
pub fn open_archive(bytes: Vec<u8>) -> (res: Option<Storage>)
    ensures
        match res {
            Some(a) => zip_listing(bytes@) == Some(archive_entries(a)),
            None => zip_listing(bytes@) is None,
        },
{
    match ZipArchive::new(Cursor::new(bytes)) {
        Ok(a) => Some(a),
        Err(_) => None,
    }
}

/// The number of entries.
///
/// Trusted: `ZipArchive::len` counts the entries of the central directory.
#[verifier::external_body]
pub fn entry_count(a: &Storage) -> (n: usize)
    ensures
        n == archive_entries(*a).len(),
{
    a.len()
}

/// The name of entry `i`; `None` when the entry cannot be opened.
///
/// Trusted: `ZipArchive::by_index` and `ZipFile::name`. Opening an entry moves
/// the archive's reader only, so the entries stay what they were.
#[verifier::external_body]
pub fn entry_name(a: &mut Storage, i: usize) -> (res: Option<String>)
    requires
        i < archive_entries(*old(a)).len(),
    ensures
        archive_entries(*final(a)) == archive_entries(*old(a)),
        crate::platform::string_opt(res) == archive_entries(*old(a))[i as int].0,
{
    match a.by_index(i) {
        Ok(file) => Some(file.name().to_string()),
        Err(_) => None,
    }
}

/// The bytes of entry `i`; `None` when the entry cannot be opened or read to
/// the end.
///
/// Trusted: `ZipArchive::by_index`, then `Read::read_to_end` on the entry.
/// Reading moves the archive's reader only, so the entries stay what they were.
#[verifier::external_body]
pub fn entry_bytes(a: &mut Storage, i: usize) -> (res: Option<Vec<u8>>)
    requires
        i < archive_entries(*old(a)).len(),
    ensures
        archive_entries(*final(a)) == archive_entries(*old(a)),
        match res {
            Some(v) => archive_entries(*old(a))[i as int].1 == Some(v@),
            None => archive_entries(*old(a))[i as int].1 is None,
        },
{
    let mut file = match a.by_index(i) {
        Ok(file) => file,
        Err(_) => return None,
    };
    let mut buf = Vec::new();
    match file.read_to_end(&mut buf) {
        Ok(_) => Some(buf),
        Err(_) => None,
    }
}

/// Text from bytes, each invalid sequence replaced by U+FFFD.
///
/// Trusted: `String::from_utf8_lossy`; valid UTF-8 is decoded unchanged, as
/// its documentation says.
#[verifier::external_body]
pub fn lossy_text(bytes: &[u8]) -> (res: String)
    ensures
        res@ == utf8_lossy(bytes@),
        valid_utf8(bytes@) ==> res@ == decode_utf8(bytes@),
{
    String::from_utf8_lossy(bytes).into_owned()
}

/// Why a help book gave no pages.
#[derive(Debug)]
pub enum StorageError {
    /// The book is not a readable container.
    Container(ContainerError),
    /// The container has no `FileStorage` element.
    NoFileStorage,
    /// `FileStorage` is not a ZIP archive.
    NotZip,
    /// The page at this place of the archive could not be read.
    Unreadable(usize),
}

/// The data of the first element named `FileStorage`.
pub open spec fn file_storage(items: Seq<(Seq<char>, Seq<u8>)>) -> Option<Seq<u8>>
    decreases items.len(),
{
    if items.len() == 0 {
        None
    } else if items[0].0 == "FileStorage"@ {
        Some(items[0].1)
    } else {
        file_storage(items.skip(1))
    }
}

/// `e` is what opening the help book `raw` is refused with: the container is
/// broken (and why), has no `FileStorage`, or that is not a ZIP archive.
pub open spec fn open_refusal(raw: Seq<u8>, e: StorageError) -> bool {
    match e {
        StorageError::Container(c) => container_items(raw) is None && c.0@ == container_refusal(raw),
        StorageError::NoFileStorage => container_items(raw) matches Some(items) && file_storage(items) is None,
        StorageError::NotZip => container_items(raw) matches Some(items)
            && file_storage(items) matches Some(data)
            && zip_listing(data) is None,
        StorageError::Unreadable(_) => false,
    }
}

/// The ZIP archive of help pages inside a help book.
pub fn open_storage(raw: &[u8]) -> (res: Result<Storage, StorageError>)
    ensures
        match res {
            Ok(a) => container_items(raw@) matches Some(items)
                && file_storage(items) matches Some(data)
                && zip_listing(data) == Some(archive_entries(a)),
            Err(e) => open_refusal(raw@, e),
        },
{
    let items = match parse(raw) {
        Ok(items) => items,
        Err(e) => { return Err(StorageError::Container(e)); },
    };
    let ghost iv = crate::container::items_view(items@);
    proof {
        reveal_strlit("FileStorage");
    }
    let mut k: usize = 0;
    assert(iv.skip(0) =~= iv);
    while k < items.len()
        invariant
            0 <= k <= items@.len(),
            iv == crate::container::items_view(items@),
            container_items(raw@) == Some(iv),
            file_storage(iv) == file_storage(iv.skip(k as int)),
        decreases items@.len() - k,
    {
        assert(iv.skip(k as int)[0] == iv[k as int]);
        assert(iv.skip(k as int).skip(1) =~= iv.skip(k + 1));
        if same_text(items[k].0.as_str(), "FileStorage") {
            let data = items[k].1.clone();
            return match open_archive(data) {
                Some(a) => Ok(a),
                None => Err(StorageError::NotZip),
            };
        }
        k = k + 1;
    }
    assert(iv.skip(items@.len() as int) =~= Seq::<(Seq<char>, Seq<u8>)>::empty());
    Err(StorageError::NoFileStorage)
}

/// Why a help book gave no pages, in words, for the book at `path`.
pub open spec fn storage_error_text(e: StorageError, path: Seq<char>) -> Seq<char> {
    let p = debug_text(path);
    match e {
        StorageError::Container(c) => "ru: Не разобран контейнер "@ + p + ": "@ + c.0@
            + ", en: Failed to parse container "@ + p + ": "@ + c.0@,
        StorageError::NoFileStorage => "ru: В "@ + p + " нет элемента FileStorage, en: No FileStorage element in "@ + p,
        StorageError::NotZip => "ru: FileStorage в "@ + p + " не ZIP, en: FileStorage in "@ + p + " is not a ZIP"@,
        StorageError::Unreadable(i) => "ru: Страница "@ + decimal(i as nat) + " архива "@ + p + " не прочитана, en: Entry "@
            + decimal(i as nat) + " of the archive in "@ + p + " could not be read"@,
    }
}

impl StorageError {
    /// The refusal in words, for the book at `path`.
    pub fn message(&self, path: &str) -> (res: String)
        ensures
            res@ == storage_error_text(*self, path@),
    {
        let pc = chars_of(path);
        let p = debug_quoted(&pc);
        let mut out: Vec<char> = Vec::new();
        match self {
            StorageError::Container(c) => {
                push_str(&mut out, "ru: Не разобран контейнер ");
                push_str(&mut out, p.as_str());
                push_str(&mut out, ": ");
                push_str(&mut out, c.0.as_str());
                push_str(&mut out, ", en: Failed to parse container ");
                push_str(&mut out, p.as_str());
                push_str(&mut out, ": ");
                push_str(&mut out, c.0.as_str());
            },
            StorageError::NoFileStorage => {
                push_str(&mut out, "ru: В ");
                push_str(&mut out, p.as_str());
                push_str(&mut out, " нет элемента FileStorage, en: No FileStorage element in ");
                push_str(&mut out, p.as_str());
            },
            StorageError::NotZip => {
                push_str(&mut out, "ru: FileStorage в ");
                push_str(&mut out, p.as_str());
                push_str(&mut out, " не ZIP, en: FileStorage in ");
                push_str(&mut out, p.as_str());
                push_str(&mut out, " is not a ZIP");
            },
            StorageError::Unreadable(i) => {
                push_str(&mut out, "ru: Страница ");
                push_decimal(&mut out, *i as u64);
                push_str(&mut out, " архива ");
                push_str(&mut out, p.as_str());
                push_str(&mut out, " не прочитана, en: Entry ");
                push_decimal(&mut out, *i as u64);
                push_str(&mut out, " of the archive in ");
                push_str(&mut out, p.as_str());
                push_str(&mut out, " could not be read");
            },
        }
        string_of(&out)
    }
}

} // verus!
