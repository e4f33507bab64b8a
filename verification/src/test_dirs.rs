//! Directories of test cases: files of one extension, known by their
//! names without it.

use vstd::prelude::*;
use vstd::string::{StrSliceExecFns, StringExecFns};
use std::path::PathBuf;
use crate::text::chars_of;

verus! {

/// `std::path::PathBuf`: a path, carried through as it is.
#[verifier::external_type_specification]
#[verifier::external_body]
pub struct ExPathBuf(PathBuf);

/// The bytes that a path holds, as `OsStr::as_encoded_bytes` gives them.
pub uninterp spec fn path_bytes(path: PathBuf) -> Seq<u8>;

/// Whether a path is what `Path::join` makes of a directory and of the
/// name of an entry, each path given by its bytes. How the two are put
/// together depends on the platform, so this is a relation between the
/// three and no function of the first two.
pub uninterp spec fn adjoined(dir: Seq<u8>, entry: Seq<char>, path: Seq<u8>) -> bool;

/// `Path::join`: the path of an entry of a directory. Of the path nothing
/// is claimed but that it is what `Path::join` made of this directory and
/// this entry.
#[verifier::external_body]
fn join_path(dir: &PathBuf, entry: &str) -> (path: PathBuf)
    ensures
        adjoined(path_bytes(*dir), entry@, path_bytes(path)),
{
    dir.join(entry)
}

/// What a directory of test cases holds.
#[derive(Debug)]
pub struct TestDirContents {
    pub dir: PathBuf,
    /// The extension that every file of the directory has, without the dot.
    pub extension: String,
    /// The names of the files without their extension, each once, in the
    /// order in which they were met.
    pub names: Vec<String>,
}

/// Why a listing is no directory of test cases.
#[derive(PartialEq, Eq, Structural, Debug, Clone, Copy)]
pub enum ListError {
    /// The file at this place of the listing has no dot in its name.
    NoExtension { index: usize },
    /// The file at this place of the listing has another extension than
    /// the first file.
    ExtensionMismatch { index: usize },
    /// The directory holds no file.
    EmptyDirectory,
}

/// The place of the last dot among the first `n` characters.
pub open spec fn last_dot(name: Seq<char>, n: int) -> Option<int>
    decreases n,
{
    if n <= 0 || n > name.len() {
        None
    } else if name[n - 1] == '.' {
        Some(n - 1)
    } else {
        last_dot(name, n - 1)
    }
}

/// A file name without its extension, and the extension: what stands
/// before the last dot and what stands behind it.
pub open spec fn split_extension(name: Seq<char>) -> Option<(Seq<char>, Seq<char>)> {
    match last_dot(name, name.len() as int) {
        Some(dot) => Some((name.subrange(0, dot), name.subrange(dot + 1, name.len() as int))),
        None => None,
    }
}

/// The extension of a file name; nothing if it has none.
pub open spec fn extension_of(name: Seq<char>) -> Seq<char> {
    match split_extension(name) {
        Some((_, extension)) => extension,
        None => Seq::empty(),
    }
}

/// The name of the file of a test case: the name, a dot and the
/// extension.
pub open spec fn file_name_of(name: Seq<char>, extension: Seq<char>) -> Seq<char> {
    name + "."@ + extension
}

/// The views of a list of strings.
pub open spec fn texts(strings: Seq<String>) -> Seq<Seq<char>> {
    strings.map_values(|s: String| s@)
}

/// The names of the first `n` files of a listing without their
/// extensions, each once, or what is wrong with the first file that has
/// no extension or another one than the first file.
pub open spec fn names_model(files: Seq<Seq<char>>, n: int) -> Result<Seq<Seq<char>>, ListError>
    decreases n,
{
    if n <= 0 || n > files.len() {
        Ok(Seq::empty())
    } else {
        match names_model(files, n - 1) {
            Err(error) => Err(error),
            Ok(names) => match (split_extension(files[n - 1]), split_extension(files[0])) {
                (Some((stem, extension)), Some((_, expected))) => if extension != expected {
                    Err(ListError::ExtensionMismatch { index: (n - 1) as usize })
                } else if names.contains(stem) {
                    Ok(names)
                } else {
                    Ok(names.push(stem))
                },
                _ => Err(ListError::NoExtension { index: (n - 1) as usize }),
            },
        }
    }
}

/// The extension and the names of a listing.
pub open spec fn listing_model(files: Seq<Seq<char>>) -> Result<
    (Seq<char>, Seq<Seq<char>>),
    ListError,
> {
    if files.len() == 0 {
        Err(ListError::EmptyDirectory)
    } else {
        match names_model(files, files.len() as int) {
            Err(error) => Err(error),
            Ok(names) => Ok((extension_of(files[0]), names)),
        }
    }
}

/// Splits a file name at its last dot.
pub fn split_file_name(name: &str) -> (parts: Option<(String, String)>)
    ensures
        match parts {
            Some((stem, extension)) => split_extension(name@) == Some((stem@, extension@)),
            None => split_extension(name@) is None,
        },
{
    let chars = chars_of(name);
    let mut n = chars.len();
    while n > 0
        invariant
            n <= chars.len(),
            chars@ == name@,
            last_dot(name@, name@.len() as int) == last_dot(name@, n as int),
        decreases n,
    {
        if chars[n - 1] == '.' {
            let stem = String::from_str(name.substring_char(0, n - 1));
            let extension = String::from_str(name.substring_char(n, chars.len()));
            return Some((stem, extension));
        }
        n -= 1;
    }
    None
}

fn holds(names: &Vec<String>, name: &String) -> (found: bool)
    ensures
        found == texts(names@).contains(name@),
{
    let mut i: usize = 0;
    while i < names.len()
        invariant
            i <= names.len(),
            forall|k: int| 0 <= k < i ==> texts(names@)[k] != name@,
        decreases names.len() - i,
    {
        if names[i] == *name {
            assert(texts(names@)[i as int] == name@);
            return true;
        }
        i += 1;
    }
    false
}

impl TestDirContents {
    /// The name of the file of a test case.
    pub fn file_name(&self, name: &str) -> (file: String)
        ensures
            file@ == file_name_of(name@, self.extension@),
    {
        let mut file = String::from_str(name);
        file.append(".");
        file.append(self.extension.as_str());
        file
    }

    /// The path of the file of a test case: what `Path::join` makes of the
    /// directory and of the file's name, which is the name of the test
    /// case, a dot and the extension.
    #[must_use]
    pub fn name_to_path(&self, name: &str) -> (path: PathBuf)
        ensures
            adjoined(
                path_bytes(self.dir),
                file_name_of(name@, self.extension@),
                path_bytes(path),
            ),
    {
        let file = self.file_name(name);
        join_path(&self.dir, file.as_str())
    }

    /// What a directory holds, from the names of its files. Every file
    /// needs an extension, the same for all, and the directory one file at
    /// least.
    pub fn from_listing(dir: PathBuf, files: &Vec<String>) -> (result: Result<Self, ListError>)
        ensures
            match result {
                Ok(contents) => listing_model(texts(files@)) == Ok::<
                    (Seq<char>, Seq<Seq<char>>),
                    ListError,
                >((contents.extension@, texts(contents.names@))) && contents.dir == dir,
                Err(error) => listing_model(texts(files@)) == Err::<
                    (Seq<char>, Seq<Seq<char>>),
                    ListError,
                >(error),
            },
    {
        if files.len() == 0 {
            return Err(ListError::EmptyDirectory);
        }
        let expected = match split_file_name(files[0].as_str()) {
            Some((_, extension)) => extension,
            None => {
                proof {
                    assert(names_model(texts(files@), 0) is Ok);
                    lemma_names_error_sticks(texts(files@), 1, files@.len() as int);
                }
                return Err(ListError::NoExtension { index: 0 });
            },
        };
        let mut names: Vec<String> = Vec::new();
        let mut i: usize = 0;
        assert(texts(names@) =~= Seq::<Seq<char>>::empty());
        while i < files.len()
            invariant
                i <= files.len(),
                files.len() > 0,
                split_extension(texts(files@)[0]) is Some,
                extension_of(texts(files@)[0]) == expected@,
                names_model(texts(files@), i as int) == Ok::<Seq<Seq<char>>, ListError>(
                    texts(names@),
                ),
            decreases files.len() - i,
        {
            match split_file_name(files[i].as_str()) {
                None => {
                    proof {
                        lemma_names_error_sticks(texts(files@), i + 1, files@.len() as int);
                    }
                    return Err(ListError::NoExtension { index: i });
                },
                Some((stem, extension)) => {
                    if extension != expected {
                        proof {
                            lemma_names_error_sticks(texts(files@), i + 1, files@.len() as int);
                        }
                        return Err(ListError::ExtensionMismatch { index: i });
                    }
                    if !holds(&names, &stem) {
                        let ghost before = texts(names@);
                        names.push(stem);
                        assert(texts(names@) =~= before.push(stem@));
                    }
                },
            }
            i += 1;
        }
        Ok(TestDirContents { dir, extension: expected, names })
    }
}

/// Once a file is refused, the listing is.
proof fn lemma_names_error_sticks(files: Seq<Seq<char>>, k: int, n: int)
    requires
        0 <= k <= n <= files.len(),
        names_model(files, k) is Err,
    ensures
        names_model(files, n) == names_model(files, k),
    decreases n,
{
    if n > k {
        lemma_names_error_sticks(files, k, n - 1);
    }
}

} // verus!
