use crate::helper::text::{find_char, rfind_char, spec_find_char, spec_rfind_char};
use vstd::prelude::*;
use vstd::string::StrSliceExecFns;

verus! {

/// A filesystem path split into its directory part (up to and including the
/// last separator) and its filename part, either of which may be absent.
#[derive(Debug)]
pub struct Filepath {
    pub directory: Option<String>,
    pub filename: Option<String>,
}

/// The mathematical content of a `Filepath`.
pub struct FilepathModel {
    pub directory: Option<Seq<char>>,
    pub filename: Option<Seq<char>>,
}

impl View for Filepath {
    type V = FilepathModel;

    open spec fn view(&self) -> FilepathModel {
        FilepathModel { directory: self.directory.deep_view(), filename: self.filename.deep_view() }
    }
}

/// How a path splits: it must hold a `/`; it has a filename exactly when text
/// holding a `.` follows the last `/`, and the split is at that last `/`.
pub open spec fn spec_filepath_from_str(s: Seq<char>) -> Option<FilepathModel> {
    match spec_rfind_char(s, '/') {
        None => None,
        Some(i) => {
            if i == s.len() - 1 {
                Some(FilepathModel { directory: Some(s), filename: None })
            } else if spec_find_char(s.skip(i + 1), '.') is None {
                Some(FilepathModel { directory: Some(s), filename: None })
            } else {
                Some(FilepathModel { directory: Some(s.take(i + 1)), filename: Some(s.skip(i + 1)) })
            }
        },
    }
}

impl Filepath {
    /// Returns a path with neither directory nor filename.
    pub fn empty() -> (r: Self)
        ensures
            r@.directory is None,
            r@.filename is None,
    {
        Filepath { directory: None, filename: None }
    }

    /// Renders the path as text: its directory and filename joined, an absent
    /// part standing for empty text.
    pub fn to_text(&self) -> (r: String)
        ensures
            r@ == (match self@.directory {
                None => Seq::<char>::empty(),
                Some(d) => d,
            }) + (match self@.filename {
                None => Seq::<char>::empty(),
                Some(f) => f,
            }),
    {
        let mut text = String::new();
        match &self.directory {
            None => {},
            Some(directory) => {
                text.append(directory.as_str());
            },
        }
        match &self.filename {
            None => {},
            Some(filename) => {
                text.append(filename.as_str());
            },
        }
        proof {
            assert(text@ =~= (match self@.directory {
                None => Seq::<char>::empty(),
                Some(d) => d,
            }) + (match self@.filename {
                None => Seq::<char>::empty(),
                Some(f) => f,
            }));
        }
        text
    }

    /// Splits a path at its last `/`. Fails exactly when the text holds no
    /// `/`; the filename part is present exactly when text holding a `.`
    /// follows the last `/`.
    pub fn from_str(slice: &str) -> (r: Result<Self, ()>)
        ensures
            match r {
                Ok(f) => spec_filepath_from_str(slice@) == Some(f@),
                Err(()) => spec_filepath_from_str(slice@) is None,
            },
    {
        let len = slice.unicode_len();
        match rfind_char(slice, '/') {
            None => Err(()),
            Some(directory_index) => {
                proof {
                    crate::helper::text::lemma_spec_rfind_char_characterization(slice@, '/');
                }
                if directory_index == len - 1 {
                    return Ok(Filepath { directory: Some(slice.to_owned()), filename: None });
                }
                let after = slice.substring_char(directory_index + 1, len);
                proof {
                    assert(after@ =~= slice@.skip(directory_index + 1));
                }
                match find_char(after, '.') {
                    None => Ok(Filepath { directory: Some(slice.to_owned()), filename: None }),
                    Some(_file_extension_index) => {
                        let directory = slice.substring_char(0, directory_index + 1);
                        proof {
                            assert(directory@ =~= slice@.take(directory_index + 1));
                        }
                        Ok(
                            Filepath {
                                directory: Some(directory.to_owned()),
                                filename: Some(after.to_owned()),
                            },
                        )
                    },
                }
            },
        }
    }
}

} // verus!
