//! The data files that the tables are loaded from: a directory held in memory, each file
//! under its path.

use crate::code_map::{lookup, put, CodeMap};
use vstd::prelude::*;
use vstd::string::StringExecFns;
use vstd::utf8::{decode_utf8, valid_utf8};

verus! {

/// The files of a directory: each a path and the bytes under it.
pub type Files = Seq<(Seq<char>, Vec<u8>)>;

/// Files by path. The path of a file within a directory is written with `/` between its
/// parts.
pub struct DataDir {
    files: CodeMap<Vec<u8>>,
}

impl View for DataDir {
    type V = Files;

    /// The files, each a path and the bytes under it.
    closed spec fn view(&self) -> Files {
        self.files@
    }
}

/// Why a file gives no text.
#[derive(Debug)]
pub enum FileError {
    /// The directory has no file under `path`.
    NotFound { path: String },
    /// The file under `path` is not UTF-8 text.
    Unreadable { path: String },
}

/// `FileError` as texts.
pub enum FileFault {
    NotFound { path: Seq<char> },
    Unreadable { path: Seq<char> },
}

impl View for FileError {
    type V = FileFault;

    open spec fn view(&self) -> FileFault {
        match self {
            FileError::NotFound { path } => FileFault::NotFound { path: path@ },
            FileError::Unreadable { path } => FileFault::Unreadable { path: path@ },
        }
    }
}

/// The text of the file under `path`: its bytes decoded as UTF-8.
pub open spec fn file_text(files: Files, path: Seq<char>) -> Result<Seq<char>, FileFault> {
    match lookup(files, path) {
        None => Err(FileFault::NotFound { path }),
        Some(bytes) => if valid_utf8(bytes@) {
            Ok(decode_utf8(bytes@))
        } else {
            Err(FileFault::Unreadable { path })
        },
    }
}

/// The parts with a `/` between each two.
pub open spec fn joined(parts: Seq<Seq<char>>) -> Seq<char>
    decreases parts.len(),
{
    if parts.len() == 0 {
        Seq::empty()
    } else if parts.len() == 1 {
        parts[0]
    } else {
        joined(parts.drop_last()) + seq!['/'] + parts.last()
    }
}

/// The texts of string slices.
pub open spec fn texts(parts: Seq<&str>) -> Seq<Seq<char>> {
    Seq::new(parts.len(), |i: int| parts[i]@)
}

/// Calls `std::str::from_utf8`. Believed of it: the result is the text that the bytes
/// encode where they are valid UTF-8, and `None` where they are not.
#[verifier::external_body]
fn utf8_text(bytes: &Vec<u8>) -> (r: Option<&str>)
    ensures
        match r {
            Some(text) => valid_utf8(bytes@) && text@ == decode_utf8(bytes@),
            None => !valid_utf8(bytes@),
        },
{
    std::str::from_utf8(bytes).ok()
}

impl DataDir {
    /// A directory without files.
    pub fn new() -> (dir: DataDir)
        ensures
            dir@ == Seq::<(Seq<char>, Vec<u8>)>::empty(),
    {
        DataDir { files: CodeMap::new() }
    }

    /// Puts a file under `path`, in the place of the file that was there if there was one.
    pub fn add_file(&mut self, path: String, contents: Vec<u8>)
        ensures
            final(self)@ == put(old(self)@, path@, contents),
    {
        self.files.insert(path, contents);
    }

    /// The bytes of the file under `path`, or `None` where there is no such file.
    pub fn get_file(&self, path: &str) -> (found: Option<&Vec<u8>>)
        ensures
            match found {
                Some(bytes) => lookup(self@, path@) == Some(*bytes),
                None => lookup(self@, path@) is None,
            },
    {
        self.files.get(path)
    }
}

/// The path made of `parts`: the parts with a `/` between each two.
pub fn join_paths(parts: &[&str]) -> (path: String)
    ensures
        path@ == joined(texts(parts@)),
{
    let ghost all = texts(parts@);
    let mut path = String::new();
    let mut i: usize = 0;
    assert(all.take(0) =~= Seq::<Seq<char>>::empty());
    while i < parts.len()
        invariant
            i <= parts.len(),
            all == texts(parts@),
            path@ == joined(all.take(i as int)),
        decreases parts.len() - i,
    {
        assert(all.take(i + 1).drop_last() =~= all.take(i as int));
        if i > 0 {
            path.append("/");
            proof {
                reveal_strlit("/");
                assert("/"@ =~= seq!['/']);
            }
        }
        path.append(parts[i]);
        assert(path@ =~= joined(all.take(i + 1)));
        i += 1;
    }
    assert(all.take(i as int) =~= all);
    path
}

/// The text of the file under `file_path`.
pub fn read_data_file(dir: &DataDir, file_path: &str) -> (r: Result<String, FileError>)
    ensures
        match r {
            Ok(text) => file_text(dir@, file_path@) matches Ok(chars) && chars == text@,
            Err(e) => file_text(dir@, file_path@) matches Err(fault) && fault == e@,
        },
{
    match dir.get_file(file_path) {
        None => Err(FileError::NotFound { path: file_path.to_owned() }),
        Some(bytes) => match utf8_text(bytes) {
            Some(text) => Ok(text.to_owned()),
            None => Err(FileError::Unreadable { path: file_path.to_owned() }),
        },
    }
}

} // verus!
