//! The store: files in the order in which they were added, no two of them
//! under the same name and extension.

use crate::file::{File, FileView};
use vstd::prelude::*;

verus! {

/// Whether `file` goes by the given name and extension.
pub open spec fn same_key(file: FileView, name: Seq<char>, extension: Seq<char>) -> bool {
    file.name == name && file.extension == extension
}

/// Whether some file among `files` goes by the given name and extension.
pub open spec fn has_key(files: Seq<FileView>, name: Seq<char>, extension: Seq<char>) -> bool {
    exists|i: int| 0 <= i < files.len() && #[trigger] same_key(files[i], name, extension)
}

/// Whether `files[i]` goes by the given name and extension and no earlier file does.
pub open spec fn is_first_with_key(
    files: Seq<FileView>,
    i: int,
    name: Seq<char>,
    extension: Seq<char>,
) -> bool {
    &&& 0 <= i < files.len()
    &&& same_key(files[i], name, extension)
    &&& forall|j: int| 0 <= j < i ==> !#[trigger] same_key(files[j], name, extension)
}

/// Whether no two of `files` share a name and extension.
pub open spec fn distinct_keys(files: Seq<FileView>) -> bool {
    forall|i: int, j: int|
        0 <= i < j < files.len() ==> !same_key(
            #[trigger] files[j],
            (#[trigger] files[i]).name,
            files[i].extension,
        )
}

/// `files` in the same order, less every file that goes by the given name and extension.
pub open spec fn without_key(files: Seq<FileView>, name: Seq<char>, extension: Seq<char>) -> Seq<
    FileView,
> {
    files.filter(|file: FileView| !same_key(file, name, extension))
}

/// What each of `files` holds, in the same order.
pub open spec fn views(files: Seq<File>) -> Seq<FileView> {
    files.map_values(|file: File| file@)
}

/// Adding a file failed: one with the same name and extension is already there.
#[derive(Debug, Clone, Copy, PartialEq, Eq)]
pub struct DuplicateKey;

/// No file goes by the name and extension that were asked for.
#[derive(Debug, Clone, Copy, PartialEq, Eq)]
pub struct NotFound;

impl DuplicateKey {
    /// The error in words.
    pub fn message(&self) -> (text: &'static str)
        ensures
            text@ == "file already exists"@,
    {
        "file already exists"
    }
}

impl NotFound {
    /// The error in words.
    pub fn message(&self) -> (text: &'static str)
        ensures
            text@ == "file does not exist"@,
    {
        "file does not exist"
    }
}

/// The files of one vault.
#[derive(Debug)]
pub struct FileSystem {
    files: Vec<File>,
}

impl View for FileSystem {
    type V = Seq<FileView>;

    closed spec fn view(&self) -> Seq<FileView> {
        views(self.files@)
    }
}

impl FileSystem {
    /// The invariant of a store: no name and extension occurs twice.
    pub open spec fn wf(&self) -> bool {
        distinct_keys(self@)
    }

    /// A store without files.
    pub fn new() -> (fs: FileSystem)
        ensures
            fs@ == Seq::<FileView>::empty(),
            fs.wf(),
    {
        let fs = FileSystem { files: Vec::new() };
        assert(fs@ =~= Seq::<FileView>::empty());
        fs
    }

    /// The files, oldest first.
    pub fn list(&self) -> (files: &Vec<File>)
        ensures
            views(files@) == self@,
    {
        &self.files
    }

    /// Where the first file with the given name and extension stands.
    fn position(&self, file_name: &String, file_ext: &String) -> (at: Option<usize>)
        ensures
            match at {
                Some(i) => is_first_with_key(self@, i as int, file_name@, file_ext@),
                None => !has_key(self@, file_name@, file_ext@),
            },
    {
        let mut i: usize = 0;
        while i < self.files.len()
            invariant
                i <= self.files.len(),
                forall|j: int| 0 <= j < i ==> !#[trigger] same_key(self@[j], file_name@, file_ext@),
            decreases self.files.len() - i,
        {
            let file = &self.files[i];
            if file.name == *file_name && file.extension == *file_ext {
                return Some(i);
            }
            i += 1;
        }
        None
    }

    /// Whether a file with this name and extension is in the store.
    pub fn file_exists(&self, file_name: &String, file_ext: &String) -> (found: bool)
        ensures
            found == has_key(self@, file_name@, file_ext@),
    {
        self.position(file_name, file_ext).is_some()
    }

    /// The file with this name and extension, if the store holds one: the
    /// first such file, which in a well-formed store is the only one.
    pub fn get_file(&self, file_name: &String, file_ext: &String) -> (found: Result<
        &File,
        NotFound,
    >)
        ensures
            match found {
                Ok(file) => exists|i: int|
                    #[trigger] is_first_with_key(self@, i, file_name@, file_ext@) && self@[i]
                        == file@,
                Err(_) => !has_key(self@, file_name@, file_ext@),
            },
    {
        match self.position(file_name, file_ext) {
            Some(i) => Ok(&self.files[i]),
            None => Err(NotFound),
        }
    }

    /// Removes every file with this name and extension, of which a
    /// well-formed store holds at most one. The other files stay as they
    /// are and in their order. Without such a file nothing changes.
    pub fn delete_file(&mut self, file_name: &String, file_ext: &String) -> (done: Result<
        (),
        NotFound,
    >)
        ensures
            has_key(old(self)@, file_name@, file_ext@) ==> done == Ok::<(), NotFound>(())
                && final(self)@ == without_key(old(self)@, file_name@, file_ext@),
            !has_key(old(self)@, file_name@, file_ext@) ==> done == Err::<(), NotFound>(NotFound)
                && final(self)@ == old(self)@,
            old(self).wf() ==> final(self).wf(),
    {
        if !self.file_exists(file_name, file_ext) {
            return Err(NotFound);
        }
        let ghost before = self@;
        let ghost seen: int = 0;
        let mut i: usize = 0;
        proof {
            lemma_without_key_empty(file_name@, file_ext@);
            assert(before.take(0) =~= Seq::<FileView>::empty());
            assert(before.skip(0) =~= before);
        }
        while i < self.files.len()
            invariant
                0 <= seen <= before.len(),
                i <= self.files.len(),
                i == without_key(before.take(seen), file_name@, file_ext@).len(),
                self.files.len() - i == before.len() - seen,
                self@ == without_key(before.take(seen), file_name@, file_ext@) + before.skip(seen),
            decreases self.files.len() - i,
        {
            let ghost kept = without_key(before.take(seen), file_name@, file_ext@);
            let ghost now = self@;
            assert(now[i as int] == before[seen]);
            proof {
                lemma_without_key_step(before, seen, file_name@, file_ext@);
            }
            if self.files[i].name == *file_name && self.files[i].extension == *file_ext {
                self.files.remove(i);
                assert(self@ =~= now.remove(i as int));
                assert(now.remove(i as int) =~= kept + before.skip(seen + 1));
            } else {
                assert(now =~= kept.push(before[seen]) + before.skip(seen + 1));
                i += 1;
            }
            proof {
                seen = seen + 1;
            }
        }
        proof {
            assert(before.take(seen) =~= before);
            assert(self@ =~= without_key(before, file_name@, file_ext@));
            if distinct_keys(before) {
                lemma_without_key_distinct(before, file_name@, file_ext@);
            }
        }
        Ok(())
    }

    /// Puts `file` at the end of the store. Where a file with the same name
    /// and extension is already there, the call fails and changes nothing,
    /// unless `overwrite` is set: then the old file leaves and the new one
    /// still goes to the end, not into the old one's place.
    pub fn add_file(&mut self, file: File, overwrite: bool) -> (done: Result<(), DuplicateKey>)
        ensures
            done == add_outcome(old(self)@, file@, overwrite),
            final(self)@ == after_add(old(self)@, file@, overwrite),
            old(self).wf() ==> final(self).wf(),
    {
        let ghost before = self@;
        if self.file_exists(&file.name, &file.extension) {
            if !overwrite {
                return Err(DuplicateKey);
            }
            let _ = self.delete_file(&file.name, &file.extension);
        } else {
            proof {
                lemma_without_absent_key(before, file@.name, file@.extension);
            }
        }
        let ghost rest = self@;
        self.files.push(file);
        proof {
            assert(self@ =~= rest.push(file@));
            if distinct_keys(before) {
                lemma_add_keeps_keys_distinct(before, file@, overwrite);
            }
        }
        Ok(())
    }
}

/// Whether adding `file` to `files` is refused.
pub open spec fn add_rejected(files: Seq<FileView>, file: FileView, overwrite: bool) -> bool {
    has_key(files, file.name, file.extension) && !overwrite
}

/// What adding `file` to `files` answers.
pub open spec fn add_outcome(files: Seq<FileView>, file: FileView, overwrite: bool) -> Result<
    (),
    DuplicateKey,
> {
    if add_rejected(files, file, overwrite) {
        Err(DuplicateKey)
    } else {
        Ok(())
    }
}

/// The files after `file` was added to `files`: unchanged where the file is
/// refused; otherwise the files under other names in their order, then `file`.
pub open spec fn after_add(files: Seq<FileView>, file: FileView, overwrite: bool) -> Seq<
    FileView,
> {
    if add_rejected(files, file, overwrite) {
        files
    } else {
        without_key(files, file.name, file.extension).push(file)
    }
}

proof fn lemma_without_key_empty(name: Seq<char>, extension: Seq<char>)
    ensures
        without_key(Seq::<FileView>::empty(), name, extension) == Seq::<FileView>::empty(),
{
    reveal(Seq::filter);
}

/// One more file taken into account: it is dropped if it goes by the name
/// and extension, and kept behind the others if not.
proof fn lemma_without_key_step(files: Seq<FileView>, n: int, name: Seq<char>, extension: Seq<char>)
    requires
        0 <= n < files.len(),
    ensures
        without_key(files.take(n + 1), name, extension) == if same_key(files[n], name, extension) {
            without_key(files.take(n), name, extension)
        } else {
            without_key(files.take(n), name, extension).push(files[n])
        },
{
    reveal(Seq::filter);
    assert(files.take(n + 1).drop_last() =~= files.take(n));
}

/// Every file of `without_key(files, ..)` is a file of `files` under another
/// name or extension, and every such file of `files` is still there.
pub proof fn lemma_without_key_members(files: Seq<FileView>, name: Seq<char>, extension: Seq<char>)
    ensures
        forall|file: FileView| #[trigger]
            without_key(files, name, extension).contains(file) <==> files.contains(file)
                && !same_key(file, name, extension),
{
    let keep = |file: FileView| !same_key(file, name, extension);
    let rest = without_key(files, name, extension);
    assert forall|file: FileView| #[trigger] rest.contains(file) implies files.contains(file)
        && !same_key(file, name, extension) by {
        files.lemma_filter_contains_rev(keep, file);
        let i = choose|i: int| 0 <= i < rest.len() && rest[i] == file;
        files.lemma_filter_pred(keep, i);
    }
    assert forall|file: FileView| files.contains(file) && !same_key(file, name, extension) implies
        #[trigger] rest.contains(file) by {
        let i = choose|i: int| 0 <= i < files.len() && files[i] == file;
        files.lemma_filter_contains(keep, i);
    }
}

/// Removing a name and extension that no file goes by removes nothing.
pub proof fn lemma_without_absent_key(files: Seq<FileView>, name: Seq<char>, extension: Seq<char>)
    requires
        !has_key(files, name, extension),
    ensures
        without_key(files, name, extension) == files,
    decreases files.len(),
{
    reveal(Seq::filter);
    if files.len() > 0 {
        let front = files.drop_last();
        assert forall|i: int| 0 <= i < front.len() implies !#[trigger] same_key(
            front[i],
            name,
            extension,
        ) by {
            assert(front[i] == files[i]);
        }
        lemma_without_absent_key(front, name, extension);
        assert(!same_key(files[files.len() - 1], name, extension));
        assert(front.push(files.last()) =~= files);
    }
}

/// The files that are left come in the order in which they stood: each is
/// found in `files` at a place that grows with its place among those left.
proof fn lemma_without_key_places(files: Seq<FileView>, name: Seq<char>, extension: Seq<char>) -> (
    places: Seq<int>)
    ensures
        places.len() == without_key(files, name, extension).len(),
        forall|k: int|
            0 <= k < places.len() ==> 0 <= #[trigger] places[k] < files.len() && files[places[k]]
                == without_key(files, name, extension)[k],
        forall|k: int, l: int| 0 <= k < l < places.len() ==> places[k] < places[l],
    decreases files.len(),
{
    reveal(Seq::filter);
    if files.len() == 0 {
        Seq::empty()
    } else {
        let front = lemma_without_key_places(files.drop_last(), name, extension);
        if same_key(files.last(), name, extension) {
            front
        } else {
            front.push(files.len() - 1)
        }
    }
}

/// Removing a name and extension leaves no two files under one name and
/// extension where there were none before.
pub proof fn lemma_without_key_distinct(files: Seq<FileView>, name: Seq<char>, extension: Seq<char>)
    requires
        distinct_keys(files),
    ensures
        distinct_keys(without_key(files, name, extension)),
{
    let rest = without_key(files, name, extension);
    let places = lemma_without_key_places(files, name, extension);
    assert forall|i: int, j: int| 0 <= i < j < rest.len() implies !same_key(
        #[trigger] rest[j],
        (#[trigger] rest[i]).name,
        rest[i].extension,
    ) by {
        assert(files[places[i]] == rest[i]);
        assert(files[places[j]] == rest[j]);
        assert(places[i] < places[j]);
    }
}

/// Adding a file to a store in which no name and extension occurs twice
/// gives such a store again, whether the file is refused, appended, or put
/// in the place of an older one.
pub proof fn lemma_add_keeps_keys_distinct(files: Seq<FileView>, file: FileView, overwrite: bool)
    requires
        distinct_keys(files),
    ensures
        distinct_keys(after_add(files, file, overwrite)),
{
    if !add_rejected(files, file, overwrite) {
        let keep = |other: FileView| !same_key(other, file.name, file.extension);
        let rest = without_key(files, file.name, file.extension);
        let after = rest.push(file);
        lemma_without_key_distinct(files, file.name, file.extension);
        assert forall|i: int, j: int| 0 <= i < j < after.len() implies !same_key(
            #[trigger] after[j],
            (#[trigger] after[i]).name,
            after[i].extension,
        ) by {
            if j == rest.len() {
                files.lemma_filter_pred(keep, i);
            }
        }
    }
}

/// After a file was added and not refused, exactly one file goes by its
/// name and extension: the file itself, which stands last. So a file added
/// with `overwrite` set takes the place of the one that was there, content
/// and all.
pub proof fn lemma_added_file_is_the_only_one(files: Seq<FileView>, file: FileView, overwrite: bool)
    requires
        !add_rejected(files, file, overwrite),
    ensures
        after_add(files, file, overwrite).len() > 0,
        after_add(files, file, overwrite).last() == file,
        forall|i: int|
            0 <= i < after_add(files, file, overwrite).len() - 1 ==> !same_key(
                #[trigger] after_add(files, file, overwrite)[i],
                file.name,
                file.extension,
            ),
{
    let keep = |other: FileView| !same_key(other, file.name, file.extension);
    let after = after_add(files, file, overwrite);
    assert forall|i: int| 0 <= i < after.len() - 1 implies !same_key(
        #[trigger] after[i],
        file.name,
        file.extension,
    ) by {
        files.lemma_filter_pred(keep, i);
    }
}

/// Removing a name and extension from a store in which no name and
/// extension occurs twice takes away exactly one file where a file goes by
/// them.
pub proof fn lemma_without_key_len(files: Seq<FileView>, name: Seq<char>, extension: Seq<char>)
    requires
        distinct_keys(files),
        has_key(files, name, extension),
    ensures
        without_key(files, name, extension).len() == files.len() - 1,
    decreases files.len(),
{
    reveal(Seq::filter);
    let front = files.drop_last();
    let at = choose|i: int| 0 <= i < files.len() && #[trigger] same_key(files[i], name, extension);
    if same_key(files.last(), name, extension) {
        assert forall|i: int| 0 <= i < front.len() implies !#[trigger] same_key(
            front[i],
            name,
            extension,
        ) by {
            assert(front[i] == files[i]);
            assert(!same_key(files[files.len() - 1], files[i].name, files[i].extension));
        }
        lemma_without_absent_key(front, name, extension);
    } else {
        assert(same_key(front[at], name, extension));
        assert forall|i: int, j: int| 0 <= i < j < front.len() implies !same_key(
            #[trigger] front[j],
            (#[trigger] front[i]).name,
            front[i].extension,
        ) by {
            assert(front[i] == files[i] && front[j] == files[j]);
        }
        lemma_without_key_len(front, name, extension);
    }
}

/// Deleting is precise: what is left are the files that went by another
/// name or another extension, each of them and nothing else; and where the
/// store was well formed and held the file, it is one file shorter.
pub proof fn lemma_delete_is_precise(files: Seq<FileView>, name: Seq<char>, extension: Seq<char>)
    ensures
        forall|file: FileView| #[trigger]
            without_key(files, name, extension).contains(file) <==> files.contains(file)
                && !same_key(file, name, extension),
        distinct_keys(files) && has_key(files, name, extension) ==> without_key(
            files,
            name,
            extension,
        ).len() == files.len() - 1,
        !has_key(files, name, extension) ==> without_key(files, name, extension) == files,
{
    lemma_without_key_members(files, name, extension);
    if has_key(files, name, extension) {
        if distinct_keys(files) {
            lemma_without_key_len(files, name, extension);
        }
    } else {
        lemma_without_absent_key(files, name, extension);
    }
}

/// The files after a run of adds to `start`, each add a file and whether
/// it may overwrite, the first add first.
pub open spec fn after_adds(start: Seq<FileView>, adds: Seq<(FileView, bool)>) -> Seq<FileView>
    decreases adds.len(),
{
    if adds.len() == 0 {
        start
    } else {
        after_add(after_adds(start, adds.drop_last()), adds.last().0, adds.last().1)
    }
}

/// Whatever is added to a store in which no name and extension occurs
/// twice, and in whatever order, with or without leave to overwrite: no
/// name and extension occurs twice afterwards. The empty store is such a
/// store.
pub proof fn lemma_adds_keep_keys_distinct(start: Seq<FileView>, adds: Seq<(FileView, bool)>)
    requires
        distinct_keys(start),
    ensures
        distinct_keys(after_adds(start, adds)),
        distinct_keys(after_adds(Seq::<FileView>::empty(), adds)),
    decreases adds.len(),
{
    if adds.len() > 0 {
        lemma_adds_keep_keys_distinct(start, adds.drop_last());
        lemma_add_keeps_keys_distinct(
            after_adds(start, adds.drop_last()),
            adds.last().0,
            adds.last().1,
        );
        lemma_add_keeps_keys_distinct(
            after_adds(Seq::<FileView>::empty(), adds.drop_last()),
            adds.last().0,
            adds.last().1,
        );
    }
}

} // verus!
