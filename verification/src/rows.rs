//! The rows of the list: entries as text.
use crate::clock::{format_time, is_local_offset, is_offset, is_time_text, minute_text, seconds_of};
use crate::fs::entry::FileEntry;
use crate::path::extension_of;
use crate::size::{format_size, size_text};
use crate::text::{ascii_lower_char, chars_of};
use vstd::prelude::*;
use vstd::string::*;

verus! {

/// A row of the list, ready to be displayed.
#[derive(Debug)]
pub struct FileRow {
    /// The pictogram of the kind of entry.
    pub type_label: String,
    pub name: String,
    /// The size, `-` for a directory.
    pub size: String,
    /// The time of the last change on the local clock, `-` where it is not known.
    pub modified: String,
    pub is_dir: bool,
}

/// An extension as text in lower case, byte for byte.
pub open spec fn extension_text(extension: Seq<u8>) -> Seq<char> {
    extension.map_values(|b: u8| ascii_lower_char(b as char))
}

/// The pictogram for files with an extension, which is given in lower case.
pub open spec fn icon_of_extension(extension: Seq<char>) -> Seq<char> {
    if extension == "rs"@ {
        "🦀"@
    } else if extension == "toml"@ || extension == "json"@ || extension == "yaml"@ || extension
        == "yml"@ {
        "⚙"@
    } else if extension == "png"@ || extension == "jpg"@ || extension == "jpeg"@ || extension
        == "gif"@ || extension == "svg"@ || extension == "webp"@ || extension == "bmp"@ {
        "🖼"@
    } else if extension == "mp4"@ || extension == "mov"@ || extension == "avi"@ || extension
        == "mkv"@ || extension == "webm"@ {
        "🎬"@
    } else if extension == "mp3"@ || extension == "flac"@ || extension == "wav"@ || extension
        == "ogg"@ || extension == "m4a"@ {
        "🎵"@
    } else if extension == "zip"@ || extension == "tar"@ || extension == "gz"@ || extension
        == "7z"@ || extension == "rar"@ {
        "📦"@
    } else if extension == "pdf"@ {
        "📑"@
    } else if extension == "md"@ || extension == "txt"@ {
        "📝"@
    } else if extension == "exe"@ || extension == "msi"@ {
        "🖥"@
    } else {
        "📄"@
    }
}

/// The pictogram of an entry: a folder for a directory, else what the extension of
/// its path calls for, in capitals or not.
pub open spec fn icon_of(entry: FileEntry) -> Seq<char> {
    if entry.is_dir {
        "📁"@
    } else {
        match extension_of(entry.path@.parts) {
            Some(extension) => icon_of_extension(extension_text(extension)),
            None => "📄"@,
        }
    }
}

fn lower_ascii(b: u8) -> (res: char)
    ensures
        res == ascii_lower_char(b as char),
{
    if 65 <= b && b <= 90 {
        (b + 32) as char
    } else {
        b as char
    }
}

fn reads(extension: &Vec<u8>, word: &str) -> (res: bool)
    ensures
        res == (extension_text(extension@) == word@),
{
    let chars: Vec<char> = chars_of(word);
    if extension.len() != chars.len() {
        assert(extension_text(extension@).len() != word@.len());
        return false;
    }
    for i in 0..extension.len()
        invariant
            extension.len() == chars.len(),
            chars@ == word@,
            forall|k: int| 0 <= k < i ==> extension_text(extension@)[k] == word@[k],
    {
        if lower_ascii(extension[i]) != chars[i] {
            assert(extension_text(extension@)[i as int] != word@[i as int]);
            return false;
        }
    }
    assert(extension_text(extension@) =~= word@);
    true
}

fn icon_for_extension(extension: &Vec<u8>) -> (res: &'static str)
    ensures
        res@ == icon_of_extension(extension_text(extension@)),
{
    let e = extension;
    if reads(e, "rs") {
        "🦀"
    } else if reads(e, "toml") || reads(e, "json") || reads(e, "yaml") || reads(e, "yml") {
        "⚙"
    } else if reads(e, "png") || reads(e, "jpg") || reads(e, "jpeg") || reads(e, "gif") || reads(
        e,
        "svg",
    ) || reads(e, "webp") || reads(e, "bmp") {
        "🖼"
    } else if reads(e, "mp4") || reads(e, "mov") || reads(e, "avi") || reads(e, "mkv") || reads(
        e,
        "webm",
    ) {
        "🎬"
    } else if reads(e, "mp3") || reads(e, "flac") || reads(e, "wav") || reads(e, "ogg") || reads(
        e,
        "m4a",
    ) {
        "🎵"
    } else if reads(e, "zip") || reads(e, "tar") || reads(e, "gz") || reads(e, "7z") || reads(
        e,
        "rar",
    ) {
        "📦"
    } else if reads(e, "pdf") {
        "📑"
    } else if reads(e, "md") || reads(e, "txt") {
        "📝"
    } else if reads(e, "exe") || reads(e, "msi") {
        "🖥"
    } else {
        "📄"
    }
}

/// The pictogram of an entry.
pub fn icon_for_entry(entry: &FileEntry) -> (res: &'static str)
    ensures
        res@ == icon_of(*entry),
{
    if entry.is_dir {
        return "📁";
    }
    match entry.path.extension() {
        Some(extension) => icon_for_extension(&extension),
        None => "📄",
    }
}

/// The size that a row shows.
pub open spec fn shown_size(entry: FileEntry) -> Seq<char> {
    if entry.is_dir {
        "-"@
    } else {
        size_text(entry.size as nat)
    }
}

/// Does the row show the entry, with the given text for the time of its last change?
pub open spec fn shows_with_time(row: FileRow, entry: FileEntry, modified: Seq<char>) -> bool {
    &&& row.type_label@ == icon_of(entry)
    &&& row.name@ == entry.name@
    &&& row.size@ == shown_size(entry)
    &&& row.modified@ == modified
    &&& row.is_dir == entry.is_dir
}

/// Does the row show the entry, with the time on the local clock?
pub open spec fn shows_entry(row: FileRow, entry: FileEntry) -> bool {
    shows_with_time(row, entry, row.modified@) && is_time_text(entry.modified, row.modified@)
}

/// Do the rows show the entries, one for one?
pub open spec fn show_entries(rows: Seq<FileRow>, entries: Seq<FileEntry>) -> bool {
    &&& rows.len() == entries.len()
    &&& forall|i: int| 0 <= i < rows.len() ==> shows_entry(#[trigger] rows[i], entries[i])
}

/// Makes a row of an entry and the text for the time of its last change.
pub fn row_with_time(entry: &FileEntry, modified: String) -> (row: FileRow)
    ensures
        shows_with_time(row, *entry, modified@),
{
    FileRow {
        type_label: icon_for_entry(entry).to_string(),
        name: entry.name.clone(),
        size: if entry.is_dir {
            "-".to_string()
        } else {
            format_size(entry.size)
        },
        modified,
        is_dir: entry.is_dir,
    }
}

/// Makes a row of an entry.
pub fn entry_to_row(entry: &FileEntry) -> (row: FileRow)
    requires
        entry.has_datable_time(),
    ensures
        shows_entry(row, *entry),
{
    row_with_time(entry, format_time(entry.modified))
}

/// Can the times of all entries be shown?
pub open spec fn all_datable(entries: Seq<FileEntry>) -> bool {
    forall|i: int| 0 <= i < entries.len() ==> (#[trigger] entries[i]).has_datable_time()
}

/// Makes the rows of a list of entries.
pub fn to_rows(entries: &[FileEntry]) -> (rows: Vec<FileRow>)
    requires
        all_datable(entries@),
    ensures
        show_entries(rows@, entries@),
{
    let mut rows: Vec<FileRow> = Vec::new();
    for i in 0..entries.len()
        invariant
            all_datable(entries@),
            show_entries(rows@, entries@.take(i as int)),
    {
        let ghost was = rows@;
        rows.push(entry_to_row(&entries[i]));
        assert(rows@.drop_last() == was);
        assert(show_entries(rows@, entries@.take(i as int + 1)));
    }
    assert(entries@.take(entries@.len() as int) == entries@);
    rows
}

/// Makes the rows of some of the entries, such as those that a filter lets through.
pub fn to_rows_from(entries: Vec<&FileEntry>) -> (rows: Vec<FileRow>)
    requires
        all_datable(entries@.unref()),
    ensures
        show_entries(rows@, entries@.unref()),
{
    let mut rows: Vec<FileRow> = Vec::new();
    let ghost all = entries@.unref();
    for i in 0..entries.len()
        invariant
            all == entries@.unref(),
            all_datable(all),
            show_entries(rows@, all.take(i as int)),
    {
        let ghost was = rows@;
        assert(all[i as int] == *entries@[i as int]);
        rows.push(entry_to_row(entries[i]));
        assert(rows@.drop_last() == was);
        assert(show_entries(rows@, all.take(i as int + 1)));
    }
    assert(all.take(all.len() as int) == all);
    rows
}

/// Two lists of rows of the same entries agree row by row, whichever function made them and
/// when: in the pictogram, the name, the size and the kind, and in the time where it is
/// not known. A known time shows in both as what it is on the local clock.
pub proof fn rows_agree_but_for_the_clock(
    one: Seq<FileRow>,
    two: Seq<FileRow>,
    entries: Seq<FileEntry>,
    i: int,
)
    requires
        show_entries(one, entries),
        show_entries(two, entries),
        0 <= i < entries.len(),
    ensures
        one.len() == entries.len(),
        two.len() == entries.len(),
        one[i].type_label@ == two[i].type_label@,
        one[i].name@ == two[i].name@,
        one[i].size@ == two[i].size@,
        one[i].is_dir == two[i].is_dir,
        entries[i].modified is None ==> one[i].modified@ == two[i].modified@,
        entries[i].modified is Some ==> exists|x: int, y: int|
            {
                &&& #[trigger] is_local_offset(seconds_of(entries[i].modified->0 as int), x)
                &&& #[trigger] is_local_offset(seconds_of(entries[i].modified->0 as int), y)
                &&& is_offset(x)
                &&& is_offset(y)
                &&& one[i].modified@ == minute_text(
                    seconds_of(entries[i].modified->0 as int) + x,
                )
                &&& two[i].modified@ == minute_text(
                    seconds_of(entries[i].modified->0 as int) + y,
                )
            },
{
    assert(shows_entry(one[i], entries[i]));
    assert(shows_entry(two[i], entries[i]));
}

/// Whether an extension is written in capitals makes no difference to the pictogram.
pub proof fn icon_ignores_case(one: FileEntry, two: FileEntry)
    requires
        one.is_dir == two.is_dir,
        extension_of(one.path@.parts) is Some,
        extension_of(two.path@.parts) is Some,
        extension_text(extension_of(one.path@.parts)->0) == extension_text(extension_of(two.path@.parts)->0),
    ensures
        icon_of(one) == icon_of(two),
{
}

/// An extension is compared letter by letter, capitals as small letters, all other bytes as
/// they are.
pub proof fn extension_is_lowered_byte_by_byte(extension: Seq<u8>, i: int)
    requires
        0 <= i < extension.len(),
    ensures
        extension_text(extension).len() == extension.len(),
        65 <= extension[i] <= 90 ==> extension_text(extension)[i] as int == extension[i] + 32,
        !(65 <= extension[i] <= 90) ==> extension_text(extension)[i] as int == extension[i],
{
}

proof fn lemma_extension_words()
    ensures
        "rs"@ =~= seq!['r', 's'],
        "toml"@ =~= seq!['t', 'o', 'm', 'l'],
        "json"@ =~= seq!['j', 's', 'o', 'n'],
        "yaml"@ =~= seq!['y', 'a', 'm', 'l'],
        "yml"@ =~= seq!['y', 'm', 'l'],
        "png"@ =~= seq!['p', 'n', 'g'],
        "jpg"@ =~= seq!['j', 'p', 'g'],
        "jpeg"@ =~= seq!['j', 'p', 'e', 'g'],
        "gif"@ =~= seq!['g', 'i', 'f'],
        "svg"@ =~= seq!['s', 'v', 'g'],
        "webp"@ =~= seq!['w', 'e', 'b', 'p'],
        "bmp"@ =~= seq!['b', 'm', 'p'],
        "mp4"@ =~= seq!['m', 'p', '4'],
        "mov"@ =~= seq!['m', 'o', 'v'],
        "avi"@ =~= seq!['a', 'v', 'i'],
        "mkv"@ =~= seq!['m', 'k', 'v'],
        "webm"@ =~= seq!['w', 'e', 'b', 'm'],
        "mp3"@ =~= seq!['m', 'p', '3'],
        "flac"@ =~= seq!['f', 'l', 'a', 'c'],
        "wav"@ =~= seq!['w', 'a', 'v'],
        "ogg"@ =~= seq!['o', 'g', 'g'],
        "m4a"@ =~= seq!['m', '4', 'a'],
        "zip"@ =~= seq!['z', 'i', 'p'],
        "tar"@ =~= seq!['t', 'a', 'r'],
        "gz"@ =~= seq!['g', 'z'],
        "7z"@ =~= seq!['7', 'z'],
        "rar"@ =~= seq!['r', 'a', 'r'],
        "pdf"@ =~= seq!['p', 'd', 'f'],
        "md"@ =~= seq!['m', 'd'],
        "txt"@ =~= seq!['t', 'x', 't'],
        "exe"@ =~= seq!['e', 'x', 'e'],
        "msi"@ =~= seq!['m', 's', 'i'],
{
    reveal_strlit("rs");
    reveal_strlit("toml");
    reveal_strlit("json");
    reveal_strlit("yaml");
    reveal_strlit("yml");
    reveal_strlit("png");
    reveal_strlit("jpg");
    reveal_strlit("jpeg");
    reveal_strlit("gif");
    reveal_strlit("svg");
    reveal_strlit("webp");
    reveal_strlit("bmp");
    reveal_strlit("mp4");
    reveal_strlit("mov");
    reveal_strlit("avi");
    reveal_strlit("mkv");
    reveal_strlit("webm");
    reveal_strlit("mp3");
    reveal_strlit("flac");
    reveal_strlit("wav");
    reveal_strlit("ogg");
    reveal_strlit("m4a");
    reveal_strlit("zip");
    reveal_strlit("tar");
    reveal_strlit("gz");
    reveal_strlit("7z");
    reveal_strlit("rar");
    reveal_strlit("pdf");
    reveal_strlit("md");
    reveal_strlit("txt");
    reveal_strlit("exe");
    reveal_strlit("msi");
}

/// Directories show a folder. A file shows the pictogram of its extension, and one without
/// an extension, or with one that is none of these, a plain sheet.
pub proof fn pictogram_goes_by_the_extension(entry: FileEntry, e: Seq<char>)
    requires
        extension_of(entry.path@.parts) is Some ==> e == extension_text(
            extension_of(entry.path@.parts)->0,
        ),
    ensures
        entry.is_dir ==> icon_of(entry) == "📁"@,
        !entry.is_dir && extension_of(entry.path@.parts) is None ==> icon_of(entry) == "📄"@,
        !entry.is_dir && extension_of(entry.path@.parts) is Some ==> {
            &&& e == "rs"@ ==> icon_of(entry) == "🦀"@
            &&& e == "toml"@ || e == "json"@ || e == "yaml"@ || e == "yml"@ ==> icon_of(entry)
                == "⚙"@
            &&& e == "png"@ || e == "jpg"@ || e == "jpeg"@ || e == "gif"@ || e == "svg"@ || e
                == "webp"@ || e == "bmp"@ ==> icon_of(entry) == "🖼"@
            &&& e == "mp4"@ || e == "mov"@ || e == "avi"@ || e == "mkv"@ || e == "webm"@
                ==> icon_of(entry) == "🎬"@
            &&& e == "mp3"@ || e == "flac"@ || e == "wav"@ || e == "ogg"@ || e == "m4a"@
                ==> icon_of(entry) == "🎵"@
            &&& e == "zip"@ || e == "tar"@ || e == "gz"@ || e == "7z"@ || e == "rar"@ ==> icon_of(
                entry,
            ) == "📦"@
            &&& e == "pdf"@ ==> icon_of(entry) == "📑"@
            &&& e == "md"@ || e == "txt"@ ==> icon_of(entry) == "📝"@
            &&& e == "exe"@ || e == "msi"@ ==> icon_of(entry) == "🖥"@
            &&& e != "rs"@ && e != "toml"@ && e != "json"@ && e != "yaml"@ && e != "yml"@ && e
                != "png"@ && e != "jpg"@ && e != "jpeg"@ && e != "gif"@ && e != "svg"@ && e
                != "webp"@ && e != "bmp"@ && e != "mp4"@ && e != "mov"@ && e != "avi"@ && e
                != "mkv"@ && e != "webm"@ && e != "mp3"@ && e != "flac"@ && e != "wav"@ && e
                != "ogg"@ && e != "m4a"@ && e != "zip"@ && e != "tar"@ && e != "gz"@ && e != "7z"@
                && e != "rar"@ && e != "pdf"@ && e != "md"@ && e != "txt"@ && e != "exe"@ && e
                != "msi"@ ==> icon_of(entry) == "📄"@
        },
{
    lemma_extension_words();
}

/// A row shows its entry: the pictogram, the name as it is, the size of a file and a dash
/// for a directory, the time, and whether it is a directory.
pub proof fn row_shows_its_entry(row: FileRow, entry: FileEntry)
    requires
        shows_entry(row, entry),
    ensures
        row.type_label@ == icon_of(entry),
        row.name@ == entry.name@,
        entry.is_dir ==> row.size@ == seq!['-'],
        !entry.is_dir ==> row.size@ == size_text(entry.size as nat),
        is_time_text(entry.modified, row.modified@),
        row.is_dir == entry.is_dir,
{
    reveal_strlit("-");
    assert("-"@ == seq!['-']);
}

/// Rows stand for entries one for one, in their order.
pub proof fn rows_stand_for_entries_in_order(
    rows: Seq<FileRow>,
    entries: Seq<FileEntry>,
    i: int,
)
    requires
        show_entries(rows, entries),
    ensures
        rows.len() == entries.len(),
        0 <= i < rows.len() ==> shows_entry(rows[i], entries[i]),
{
}

} // verus!
