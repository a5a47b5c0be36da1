//! One stored file: a name, an extension and the bytes.

use crate::text::{decimal, decimal_string};
use vstd::prelude::*;
use vstd::string::StringExecFns;

verus! {

/// A file as the vault keeps it.
///
/// A file is identified by its name together with its extension. Any values
/// are accepted for the three parts; whoever derives them from a path decides
/// which paths are admissible.
#[derive(Debug, Clone, PartialEq, Eq)]
pub struct File {
    pub name: String,
    pub extension: String,
    pub content: Vec<u8>,
}

/// What a [`File`] holds, as plain sequences.
pub struct FileView {
    pub name: Seq<char>,
    pub extension: Seq<char>,
    pub content: Seq<u8>,
}

impl View for File {
    type V = FileView;

    open spec fn view(&self) -> FileView {
        FileView { name: self.name@, extension: self.extension@, content: self.content@ }
    }
}

/// The one-line summary of a file: `<name>.<extension> [<N> bytes]`,
/// with `N` the length of the content in decimal.
pub open spec fn display_of(file: FileView) -> Seq<char> {
    file.name + "."@ + file.extension + " ["@ + decimal(file.content.len()) + " bytes]"@
}

/// The file name under which a file is written out of the vault:
/// `vault-<name>.<extension>`.
pub open spec fn export_name_of(file: FileView) -> Seq<char> {
    "vault-"@ + file.name + "."@ + file.extension
}

impl File {
    /// Makes a file of the three parts, taken as they are.
    pub fn new(name: String, extension: String, content: Vec<u8>) -> (file: File)
        ensures
            file.name == name,
            file.extension == extension,
            file.content == content,
            file@ == (FileView { name: name@, extension: extension@, content: content@ }),
    {
        File { name, extension, content }
    }

    /// The summary shown in listings.
    pub fn display(&self) -> (line: String)
        ensures
            line@ == display_of(self@),
    {
        let mut line = self.name.clone();
        line.append(".");
        line.append(self.extension.as_str());
        line.append(" [");
        let count = decimal_string(self.content.len());
        line.append(count.as_str());
        line.append(" bytes]");
        line
    }

    /// The name of the file that an export writes.
    pub fn export_name(&self) -> (path: String)
        ensures
            path@ == export_name_of(self@),
    {
        let mut path = String::from_str("vault-");
        path.append(self.name.as_str());
        path.append(".");
        path.append(self.extension.as_str());
        path
    }
}

} // verus!
