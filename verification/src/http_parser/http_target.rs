use super::http_target_parameters::{
    spec_params_from_str, HttpTargetParameters, ParamsModel,
};
use crate::helper::text::{
    count_char, ends_with_char, find_char, rfind_char, spec_count_char, spec_find_char,
    spec_kth_occurrence, spec_rfind_char,
};
use vstd::prelude::*;
use vstd::string::StrSliceExecFns;
use vstd::string::StringExecFns;

verus! {

/// The request-line resource identifier, decomposed into the path before the
/// query string and the query parameters. Directory and filename are derived
/// from the path on demand, never stored.
#[derive(Debug)]
pub struct HttpTarget {
    pub path: Option<String>,
    pub parameters: Option<HttpTargetParameters>,
}

/// The mathematical content of a target.
pub struct TargetModel {
    pub path: Option<Seq<char>>,
    pub parameters: Option<ParamsModel>,
}

impl View for HttpTarget {
    type V = TargetModel;

    open spec fn view(&self) -> TargetModel {
        TargetModel {
            path: self.path.deep_view(),
            parameters: match self.parameters {
                Some(ref p) => Some(p@),
                None => None,
            },
        }
    }
}

/// The path part of a raw target: what stands before the first `?`, or the
/// whole text where there is no `?`.
pub open spec fn spec_path_of(s: Seq<char>) -> Seq<char> {
    match spec_find_char(s, '?') {
        None => s,
        Some(i) => s.take(i),
    }
}

/// The target a raw request-line token denotes.
pub open spec fn spec_target_from_str(s: Seq<char>) -> TargetModel {
    TargetModel { path: Some(spec_path_of(s)), parameters: spec_params_from_str(s) }
}

/// The directory part of a path. A path has a filename exactly when its last
/// segment — what follows the last `/`, or the whole path without one — holds
/// a `.`; otherwise the whole path is the directory. With a filename and a
/// `/`, the directory runs through that last `/`; a bare filename leaves the
/// directory absent.
pub open spec fn spec_path_directory(path: Seq<char>) -> Option<Seq<char>> {
    match spec_rfind_char(path, '/') {
        None => if spec_find_char(path, '.') is Some {
            None
        } else {
            Some(path)
        },
        Some(i) => if spec_find_char(path.skip(i + 1), '.') is Some {
            Some(path.take(i + 1))
        } else {
            Some(path)
        },
    }
}

/// The filename part of a path: its last segment, present exactly when that
/// segment holds a `.`.
pub open spec fn spec_path_filename(path: Seq<char>) -> Option<Seq<char>> {
    match spec_rfind_char(path, '/') {
        None => if spec_find_char(path, '.') is Some {
            Some(path)
        } else {
            None
        },
        Some(i) => if spec_find_char(path.skip(i + 1), '.') is Some {
            Some(path.skip(i + 1))
        } else {
            None
        },
    }
}

/// The directory of a target, where it has a path with one.
pub open spec fn spec_target_directory(t: TargetModel) -> Option<Seq<char>> {
    match t.path {
        None => None,
        Some(p) => spec_path_directory(p),
    }
}

/// The filename of a target, where it has a path with one.
pub open spec fn spec_target_filename(t: TargetModel) -> Option<Seq<char>> {
    match t.path {
        None => None,
        Some(p) => spec_path_filename(p),
    }
}

/// `d` guaranteed to end in a `/`: unchanged where it already does, extended
/// by one where it does not.
pub open spec fn spec_with_slash(d: Seq<char>) -> Seq<char> {
    if d.len() > 0 && d[d.len() - 1] == '/' {
        d
    } else {
        d + seq!['/']
    }
}

/// The target's directory where it has one, else the root directory `/`.
pub open spec fn spec_directory_or_root(t: TargetModel) -> Seq<char> {
    match spec_target_directory(t) {
        None => seq!['/'],
        Some(d) => d,
    }
}

/// The target after its filename is replaced: the new path is the old
/// directory (or `/` where there was none), exactly one `/` separator, and
/// the new name; the parameters are unchanged.
pub open spec fn spec_set_filename(t: TargetModel, name: Seq<char>) -> TargetModel {
    TargetModel {
        path: Some(spec_with_slash(spec_directory_or_root(t)) + name),
        parameters: t.parameters,
    }
}

/// The target after its directory is replaced: the old filename, where there
/// is one, follows the new directory with exactly one `/` separator; the
/// parameters are unchanged.
pub open spec fn spec_set_directory(t: TargetModel, dir: Seq<char>) -> TargetModel {
    TargetModel {
        path: Some(
            match spec_target_filename(t) {
                None => dir,
                Some(f) => spec_with_slash(dir) + f,
            },
        ),
        parameters: t.parameters,
    }
}

impl Clone for HttpTarget {
    /// The clone holds the same path and parameters.
    fn clone(&self) -> (r: Self)
        ensures
            r@ == self@,
    {
        HttpTarget {
            path: match &self.path {
                None => None,
                Some(p) => Some(p.clone()),
            },
            parameters: match &self.parameters {
                None => None,
                Some(p) => Some(p.clone()),
            },
        }
    }
}

impl HttpTarget {
    /// Returns a target holding neither path nor parameters.
    pub fn new() -> (r: Self)
        ensures
            r@.path is None,
            r@.parameters is None,
    {
        HttpTarget { path: None, parameters: None }
    }

    /// Splits a raw target into the path before the first `?` and the query
    /// parameters the whole text denotes. Never fails: the path is always
    /// present.
    pub fn from_str(target: &str) -> (r: Result<Self, ()>)
        ensures
            r matches Ok(t) && t@ == spec_target_from_str(target@),
    {
        let len = target.unicode_len();
        let path: String = match find_char(target, '?') {
            None => target.to_owned(),
            Some(i) => {
                proof {
                    crate::helper::text::lemma_spec_find_char_characterization(target@, '?');
                }
                let p = target.substring_char(0, i);
                proof {
                    assert(p@ =~= target@.take(i as int));
                }
                p.to_owned()
            },
        };
        let parameters = match HttpTargetParameters::from_str(target) {
            Err(()) => None,
            Ok(parameters) => Some(parameters),
        };
        Ok(HttpTarget { path: Some(path), parameters })
    }

    /// Returns the directory part of the path, where the path has one.
    pub fn directory(&self) -> (r: Option<&str>)
        ensures
            match r {
                Some(s) => spec_target_directory(self@) == Some(s@),
                None => spec_target_directory(self@) is None,
            },
    {
        self.get_directory_and_filename().0
    }

    /// Returns the filename part of the path, where the path has one.
    pub fn filename(&self) -> (r: Option<&str>)
        ensures
            match r {
                Some(s) => spec_target_filename(self@) == Some(s@),
                None => spec_target_filename(self@) is None,
            },
    {
        self.get_directory_and_filename().1
    }

    /// Replaces the filename portion of the path, synthesizing a root
    /// directory where the target has none, with exactly one `/` separator.
    /// The new path is always present.
    pub fn set_filename(&mut self, filename: &str)
        ensures
            final(self)@ == spec_set_filename(old(self)@, filename@),
    {
        let mut new_path: String = match self.directory() {
            None => {
                let mut s = String::new();
                s.append("/");
                proof {
                    reveal_strlit("/");
                    assert(s@ =~= spec_directory_or_root(old(self)@));
                }
                s
            },
            Some(directory) => directory.to_owned(),
        };
        if !ends_with_char(new_path.as_str(), '/') {
            new_path.append("/");
            proof {
                reveal_strlit("/");
                assert(new_path@ =~= spec_with_slash(spec_directory_or_root(old(self)@)));
            }
        }
        new_path.append(filename);
        self.path = Some(new_path);
    }

    /// Replaces the directory portion of the path, keeping the existing
    /// filename (if any) behind exactly one `/` separator. The new path is
    /// always present.
    pub fn set_directory(&mut self, directory: &str)
        ensures
            final(self)@ == spec_set_directory(old(self)@, directory@),
    {
        let filename: Option<String> = match self.filename() {
            None => None,
            Some(f) => Some(f.to_owned()),
        };
        let mut new_path: String = directory.to_owned();
        match filename {
            None => {},
            Some(f) => {
                if !ends_with_char(new_path.as_str(), '/') {
                    new_path.append("/");
                    proof {
                        reveal_strlit("/");
                        assert(new_path@ =~= spec_with_slash(directory@));
                    }
                }
                new_path.append(f.as_str());
            },
        }
        self.path = Some(new_path);
    }

    /// Returns how many `/` separators the path holds (none where the target
    /// has no path).
    pub fn directory_count(&self) -> (r: usize)
        ensures
            r == match self@.path {
                None => 0int,
                Some(p) => spec_count_char(p, '/'),
            },
    {
        match &self.path {
            None => 0,
            Some(path) => count_char(path.as_str(), '/'),
        }
    }

    /// Returns the path prefix through the `directories`-th `/` (inclusive,
    /// counting from one, with zero treated as one), or `None` where the path
    /// is absent or holds fewer separators.
    pub fn n_directories(&self, directories: usize) -> (r: Option<&str>)
        ensures
            match self@.path {
                None => r is None,
                Some(p) => match spec_kth_occurrence(p, '/', 0, directories as int) {
                    None => r is None,
                    Some(i) => r matches Some(s) && s@ == p.take(i + 1),
                },
            },
    {
        let path = match &self.path {
            None => {
                return None;
            },
            Some(path) => path.as_str(),
        };
        let len = path.unicode_len();
        let mut i: usize = 0;
        let mut found: usize = 0;
        while i < len
            invariant
                self@.path == Some(path@),
                len == path@.len(),
                i <= len,
                found <= i,
                directories == 0 ==> found == 0,
                directories >= 1 ==> found < directories,
                spec_kth_occurrence(path@, '/', 0, directories as int) == spec_kth_occurrence(
                    path@,
                    '/',
                    i as int,
                    directories - found,
                ),
            decreases len - i,
        {
            if path.get_char(i) == '/' {
                if found + 1 >= directories {
                    let prefix = path.substring_char(0, i + 1);
                    proof {
                        assert(prefix@ =~= path@.take(i + 1));
                    }
                    return Some(prefix);
                }
                found += 1;
            }
            i += 1;
        }
        None
    }

    fn get_directory_and_filename(&self) -> (r: (Option<&str>, Option<&str>))
        ensures
            match r.0 {
                Some(s) => spec_target_directory(self@) == Some(s@),
                None => spec_target_directory(self@) is None,
            },
            match r.1 {
                Some(s) => spec_target_filename(self@) == Some(s@),
                None => spec_target_filename(self@) is None,
            },
    {
        let path = match &self.path {
            None => {
                return (None, None);
            },
            Some(path) => path.as_str(),
        };
        let len = path.unicode_len();
        match rfind_char(path, '/') {
            None => {
                match find_char(path, '.') {
                    None => (Some(path), None),
                    Some(_) => (None, Some(path)),
                }
            },
            Some(index) => {
                proof {
                    crate::helper::text::lemma_spec_rfind_char_characterization(path@, '/');
                }
                let last_segment = path.substring_char(index + 1, len);
                proof {
                    assert(last_segment@ =~= path@.skip(index + 1));
                }
                match find_char(last_segment, '.') {
                    None => (Some(path), None),
                    Some(_) => {
                        let directory = path.substring_char(0, index + 1);
                        proof {
                            assert(directory@ =~= path@.take(index + 1));
                        }
                        (Some(directory), Some(last_segment))
                    },
                }
            },
        }
    }
}

} // verus!
