//! What the commands of the vault compute, apart from reading and writing
//! files and printing.

use crate::file::{display_of, File, FileView};
use crate::store::{has_key, lemma_without_absent_key, views, FileSystem};
use crate::text::{decimal, decimal_string, plural_suffix, pluralize};
use vstd::prelude::*;
use vstd::string::{StrSliceExecFns, StringExecFns, StringSliceAdditionalSpecFns};

verus! {

/// The text of the file that a new vault starts with.
pub const WELCOME: &'static str =
    "welcome to vault! vault is your private place to store sensitive documents, files, photos, and much more. get started by running `vault help` to see the available commands!";

/// The file that a new vault starts with: `hello.txt`, holding [`WELCOME`].
pub open spec fn welcome_file() -> FileView {
    FileView { name: "hello"@, extension: "txt"@, content: WELCOME.spec_bytes() }
}

/// The files of a new vault: none where an empty one is asked for, else the
/// welcome file.
pub open spec fn initial_files(empty: bool) -> Seq<FileView> {
    if empty {
        Seq::empty()
    } else {
        seq![welcome_file()]
    }
}

/// The store of a new vault.
pub fn init_fs(empty: bool) -> (fs: FileSystem)
    ensures
        fs@ == initial_files(empty),
        fs.wf(),
{
    let mut fs = FileSystem::new();
    if !empty {
        let file = File::new(
            String::from_str("hello"),
            String::from_str("txt"),
            WELCOME.as_bytes_vec(),
        );
        proof {
            assert(!has_key(fs@, file@.name, file@.extension));
            lemma_without_absent_key(fs@, file@.name, file@.extension);
        }
        let _ = fs.add_file(file, false);
        assert(fs@ =~= initial_files(empty));
    }
    fs
}

/// `lines` one after the other, with a line feed between each two.
pub open spec fn joined_lines(lines: Seq<Seq<char>>) -> Seq<char>
    decreases lines.len(),
{
    if lines.len() == 0 {
        Seq::empty()
    } else if lines.len() == 1 {
        lines[0]
    } else {
        joined_lines(lines.drop_last()) + "\n"@ + lines.last()
    }
}

/// The listing of a vault: the number of files with `file` or `files`
/// behind it and a colon, then on a line each the summary of every file, in
/// the order of the store.
pub open spec fn listing_of(files: Seq<FileView>) -> Seq<char> {
    decimal(files.len()) + " file"@ + plural_suffix(files.len()) + ":\n"@ + joined_lines(
        files.map_values(|file: FileView| display_of(file)),
    )
}

/// The listing of a vault, as `ls` prints it.
pub fn listing(fs: &FileSystem) -> (text: String)
    ensures
        text@ == listing_of(fs@),
{
    let files = fs.list();
    let ghost lines = fs@.map_values(|file: FileView| display_of(file));
    let mut text = decimal_string(files.len());
    text.append(" file");
    text.append(pluralize(files.len()));
    text.append(":\n");
    let ghost head = text@;
    let mut i: usize = 0;
    assert(lines.take(0) =~= Seq::<Seq<char>>::empty());
    while i < files.len()
        invariant
            i <= files.len(),
            views(files@) == fs@,
            lines == fs@.map_values(|file: FileView| display_of(file)),
            text@ == head + joined_lines(lines.take(i as int)),
        decreases files.len() - i,
    {
        if i > 0 {
            text.append("\n");
        }
        let line = files[i].display();
        text.append(line.as_str());
        proof {
            let upto = lines.take(i + 1);
            assert(upto.drop_last() =~= lines.take(i as int));
            assert(upto.last() == line@);
            assert(text@ =~= head + joined_lines(upto));
        }
        i += 1;
    }
    assert(lines.take(i as int) =~= lines);
    text
}

/// The stem of the path that a text writes: what `Path::file_stem` returns
/// for it. The call reads the text and nothing else, so the text fixes the
/// stem; where a path falls into components goes by the conventions of the
/// platform that the library is built for.
pub uninterp spec fn stem_of(path: Seq<char>) -> Option<Seq<char>>;

/// The extension of the path that a text writes, without the dot: what
/// `Path::extension` returns for it. As the stem, it is fixed by the text.
pub uninterp spec fn extension_of(path: Seq<char>) -> Option<Seq<char>>;

/// Calls `Path::file_stem` on the path that `path` writes. Believed of
/// it: the stem depends on the text of the path alone.
#[verifier::external_body]
fn path_stem(path: &str) -> (stem: Option<String>)
    ensures
        match stem {
            Some(s) => stem_of(path@) == Some(s@),
            None => stem_of(path@) is None,
        },
{
    match std::path::Path::new(path).file_stem() {
        Some(stem) => Some(stem.to_string_lossy().into_owned()),
        None => None,
    }
}

/// Calls `Path::extension` on the path that `path` writes. Believed of
/// it: the extension depends on the text of the path alone; and, being
/// what follows the last dot of the file name, it holds no dot.
#[verifier::external_body]
fn path_extension(path: &str) -> (extension: Option<String>)
    ensures
        match extension {
            Some(e) => extension_of(path@) == Some(e@),
            None => extension_of(path@) is None,
        },
        extension matches Some(ext) ==> !ext@.contains('.'),
{
    match std::path::Path::new(path).extension() {
        Some(extension) => Some(extension.to_string_lossy().into_owned()),
        None => None,
    }
}

/// The name and extension under which a path with this stem and this
/// extension is filed: the two of them, where the path has both and
/// neither is empty.
pub open spec fn filed_under(stem: Option<Seq<char>>, extension: Option<Seq<char>>) -> Option<
    (Seq<char>, Seq<char>),
> {
    match (stem, extension) {
        (Some(name), Some(ext)) => if name.len() > 0 && ext.len() > 0 {
            Some((name, ext))
        } else {
            None
        },
        _ => None,
    }
}

/// What is made of the stem and the extension of a path: the name and
/// extension under which its file is kept, where the path has both and
/// neither is empty.
pub open spec fn filed_as(stem: Option<String>, extension: Option<String>) -> Option<
    (String, String),
> {
    match (stem, extension) {
        (Some(name), Some(ext)) => if name@.len() > 0 && ext@.len() > 0 {
            Some((name, ext))
        } else {
            None
        },
        _ => None,
    }
}

/// The name and extension under which a path is filed, from its stem and
/// its extension. A file of the vault has a name and an extension, so a
/// path that lacks one of them, or has an empty one, is filed under nothing.
pub fn name_and_ext(stem: Option<String>, extension: Option<String>) -> (pair: Option<
    (String, String),
>)
    ensures
        pair == filed_as(stem, extension),
{
    match (stem, extension) {
        (Some(name), Some(ext)) => {
            if name.as_str().is_empty() || ext.as_str().is_empty() {
                None
            } else {
                Some((name, ext))
            }
        },
        _ => None,
    }
}

/// The name and extension under which the file at a path is kept: the stem
/// of the path and its extension without the dot. A path without a file
/// name or without an extension names no file for the vault, nor does one
/// whose stem or extension is empty.
pub fn file_name_and_ext_from_string(string: String) -> (pair: Option<(String, String)>)
    ensures
        match pair {
            Some((name, ext)) => filed_under(stem_of(string@), extension_of(string@)) == Some(
                (name@, ext@),
            ),
            None => filed_under(stem_of(string@), extension_of(string@)) is None,
        },
        pair matches Some((name, ext)) ==> {
            &&& name@.len() > 0
            &&& ext@.len() > 0
            &&& !ext@.contains('.')
        },
{
    let stem = path_stem(string.as_str());
    let extension = path_extension(string.as_str());
    name_and_ext(stem, extension)
}

} // verus!
