//! Between a store and the bytes of its container.
//!
//! Reading and writing the container file is the caller's part: `get_fs`
//! takes what was read, `save_fs` returns what is to be written.

use crate::codec::{pack_rows, packable, packed, unpack_rows, unpacked, MAX_LEN};
use crate::file::{File, FileView};
use crate::store::{
    distinct_keys, has_key, lemma_without_absent_key, same_key, views, FileSystem,
};
use vstd::prelude::*;

verus! {

/// Why no store came out of a container.
#[derive(Debug, Clone, Copy, PartialEq, Eq)]
pub enum LoadError {
    /// There is no container.
    Missing,
    /// The bytes are no container, or one that holds two files under the
    /// same name and extension.
    Corrupt,
}

/// Why no container came out of a store.
#[derive(Debug, Clone, Copy, PartialEq, Eq)]
pub enum SaveError {
    /// A name, an extension, a content or the number of files is beyond
    /// what the format can hold.
    TooLarge,
    /// The encoder gave up.
    Encode,
}

impl LoadError {
    /// The error in words.
    pub fn message(&self) -> (text: &'static str)
        ensures
            text@ == match *self {
                LoadError::Missing => "no vault in current directory"@,
                LoadError::Corrupt => "vault in current directory is invalid"@,
            },
    {
        match self {
            LoadError::Missing => "no vault in current directory",
            LoadError::Corrupt => "vault in current directory is invalid",
        }
    }
}

/// A file as a row of the container.
pub open spec fn row_of(file: FileView) -> (Seq<char>, Seq<char>, Seq<u8>) {
    (file.name, file.extension, file.content)
}

/// A row of the container as a file.
pub open spec fn file_of(row: (Seq<char>, Seq<char>, Seq<u8>)) -> FileView {
    FileView { name: row.0, extension: row.1, content: row.2 }
}

/// The rows of the container for `files`, in their order.
pub open spec fn rows_of(files: Seq<FileView>) -> Seq<(Seq<char>, Seq<char>, Seq<u8>)> {
    files.map_values(|file: FileView| row_of(file))
}

/// The files that `rows` stand for, in their order.
pub open spec fn files_of(rows: Seq<(Seq<char>, Seq<char>, Seq<u8>)>) -> Seq<FileView> {
    rows.map_values(|row: (Seq<char>, Seq<char>, Seq<u8>)| file_of(row))
}

/// What is made of rows read from a container: a store of these files, unless
/// two of them share a name and extension.
pub open spec fn restored(rows: Seq<(Seq<char>, Seq<char>, Seq<u8>)>) -> Result<
    Seq<FileView>,
    LoadError,
> {
    if distinct_keys(files_of(rows)) {
        Ok(files_of(rows))
    } else {
        Err(LoadError::Corrupt)
    }
}

/// What is made of a container: `None` stands for a container that is not there.
pub open spec fn loaded(container: Option<Seq<u8>>) -> Result<Seq<FileView>, LoadError> {
    match container {
        None => Err(LoadError::Missing),
        Some(bytes) => match unpacked(bytes) {
            None => Err(LoadError::Corrupt),
            Some(rows) => restored(rows),
        },
    }
}

/// Whether `outcome` is the store, or the error, that `expected` asks for.
pub open spec fn agrees(
    outcome: Result<FileSystem, LoadError>,
    expected: Result<Seq<FileView>, LoadError>,
) -> bool {
    match outcome {
        Ok(fs) => expected == Ok::<Seq<FileView>, LoadError>(fs@) && fs.wf(),
        Err(error) => expected == Err::<Seq<FileView>, LoadError>(error),
    }
}

/// Each row as the file it stands for, part by part.
proof fn lemma_rows_as_files(rows: Vec<(String, String, Vec<u8>)>)
    ensures
        files_of(rows.deep_view()).len() == rows@.len(),
        forall|k: int|
            0 <= k < rows@.len() ==> files_of(rows.deep_view())[k] == (FileView {
                name: (#[trigger] rows@[k]).0@,
                extension: rows@[k].1@,
                content: rows@[k].2@,
            }),
{
    assert forall|k: int| 0 <= k < rows@.len() implies files_of(rows.deep_view())[k] == (FileView {
        name: (#[trigger] rows@[k]).0@,
        extension: rows@[k].1@,
        content: rows@[k].2@,
    }) by {
        assert(rows@[k].2.deep_view() =~= rows@[k].2@);
    }
}

/// The store that holds the files of `rows` in their order. Rows in which a
/// name and extension comes twice are no store.
#[verifier::loop_isolation(false)]
pub fn restore(rows: Vec<(String, String, Vec<u8>)>) -> (outcome: Result<FileSystem, LoadError>)
    ensures
        agrees(outcome, restored(rows.deep_view())),
{
    let ghost all = files_of(rows.deep_view());
    let ghost items = rows@;
    proof {
        lemma_rows_as_files(rows);
    }
    let mut fs = FileSystem::new();
    for row in it: rows
        invariant
            it.seq() == items,
            items.len() == all.len(),
            forall|k: int|
                0 <= k < all.len() ==> all[k] == (FileView {
                    name: (#[trigger] items[k]).0@,
                    extension: items[k].1@,
                    content: items[k].2@,
                }),
            fs@ == all.take(it.index() as int),
            fs.wf(),
    {
        let ghost n = it.index() as int;
        let ghost before = fs@;
        let (name, extension, content) = row;
        let file = File::new(name, extension, content);
        assert(file@ == all[n]);
        proof {
            if !has_key(before, file@.name, file@.extension) {
                lemma_without_absent_key(before, file@.name, file@.extension);
            }
        }
        match fs.add_file(file, false) {
            Ok(_) => {
                assert(fs@ =~= all.take(n + 1));
            },
            Err(_) => {
                proof {
                    let i = choose|i: int|
                        0 <= i < before.len() && #[trigger] same_key(
                            before[i],
                            all[n].name,
                            all[n].extension,
                        );
                    assert(all[i] == before[i]);
                    assert(same_key(all[n], all[i].name, all[i].extension));
                }
                return Err(LoadError::Corrupt);
            },
        }
    }
    assert(fs@ =~= all);
    Ok(fs)
}

/// The store that a container holds. `None` stands for a container that
/// could not be read, which counts as missing.
pub fn get_fs(container: Option<&[u8]>) -> (outcome: Result<FileSystem, LoadError>)
    ensures
        agrees(
            outcome,
            loaded(
                match container {
                    Some(bytes) => Some(bytes@),
                    None => None,
                },
            ),
        ),
{
    match container {
        None => Err(LoadError::Missing),
        Some(bytes) => match unpack_rows(bytes) {
            Ok(rows) => restore(rows),
            Err(_) => Err(LoadError::Corrupt),
        },
    }
}

/// Rows made of files stand for those files again.
pub proof fn lemma_files_of_rows(files: Seq<FileView>)
    ensures
        files_of(rows_of(files)) == files,
{
    assert(files_of(rows_of(files)) =~= files);
}

/// The rows of a store, borrowed from it.
fn rows(fs: &FileSystem) -> (rows: Vec<(&String, &String, &Vec<u8>)>)
    ensures
        rows.deep_view() == rows_of(fs@),
{
    let files = fs.list();
    let mut rows: Vec<(&String, &String, &Vec<u8>)> = Vec::new();
    let mut i: usize = 0;
    while i < files.len()
        invariant
            i <= files.len(),
            views(files@) == fs@,
            rows.len() == i,
            forall|k: int| 0 <= k < i ==> (#[trigger] rows@[k]).0@ == files@[k].name@,
            forall|k: int| 0 <= k < i ==> (#[trigger] rows@[k]).1@ == files@[k].extension@,
            forall|k: int| 0 <= k < i ==> (#[trigger] rows@[k]).2@ == files@[k].content@,
        decreases files.len() - i,
    {
        let file = &files[i];
        rows.push((&file.name, &file.extension, &file.content));
        i += 1;
    }
    proof {
        assert forall|k: int| 0 <= k < rows@.len() implies #[trigger] rows.deep_view()[k]
            == rows_of(fs@)[k] by {
            assert(rows@[k].2.deep_view() =~= rows@[k].2@);
            assert(fs@[k] == files@[k]@);
        }
        assert(rows.deep_view() =~= rows_of(fs@));
    }
    rows
}

/// Whether the format can hold the store.
fn fits(fs: &FileSystem) -> (yes: bool)
    ensures
        yes == packable(rows_of(fs@)),
{
    let files = fs.list();
    if files.len() > MAX_LEN {
        return false;
    }
    let mut i: usize = 0;
    while i < files.len()
        invariant
            i <= files.len(),
            files.len() <= MAX_LEN,
            views(files@) == fs@,
            forall|k: int|
                0 <= k < i ==> {
                    &&& vstd::utf8::encode_utf8((#[trigger] rows_of(fs@)[k]).0).len() <= MAX_LEN
                    &&& vstd::utf8::encode_utf8(rows_of(fs@)[k].1).len() <= MAX_LEN
                    &&& rows_of(fs@)[k].2.len() <= MAX_LEN
                },
        decreases files.len() - i,
    {
        let file = &files[i];
        assert(fs@[i as int] == file@);
        assert(rows_of(fs@)[i as int] == row_of(file@));
        if file.name.as_str().as_bytes().len() > MAX_LEN
            || file.extension.as_str().as_bytes().len() > MAX_LEN
            || file.content.len() > MAX_LEN {
            return false;
        }
        i += 1;
    }
    true
}

/// The bytes of the container for a store. A store that the format cannot
/// hold is refused; the encoder may still fail on one that it can hold.
/// From the bytes of a well-formed store, `get_fs` gives a store with the
/// same files in the same order.
pub fn save_fs(fs: &FileSystem) -> (outcome: Result<Vec<u8>, SaveError>)
    ensures
        match outcome {
            Ok(bytes) => {
                &&& packable(rows_of(fs@))
                &&& bytes@ == packed(rows_of(fs@))
                &&& fs.wf() ==> loaded(Some(bytes@)) == Ok::<Seq<FileView>, LoadError>(fs@)
            },
            Err(SaveError::TooLarge) => !packable(rows_of(fs@)),
            Err(SaveError::Encode) => packable(rows_of(fs@)),
        },
{
    if !fits(fs) {
        return Err(SaveError::TooLarge);
    }
    let rows = rows(fs);
    match pack_rows(&rows) {
        Ok(bytes) => {
            proof {
                lemma_files_of_rows(fs@);
            }
            Ok(bytes)
        },
        Err(_) => Err(SaveError::Encode),
    }
}

} // verus!
