//! Paths of files that share one directory, such as the sockets of one compositor instance.
use vstd::prelude::*;

verus! {

/// `dir` with `name` pushed onto it as a path component: an absolute `name` replaces `dir`,
/// and a `/` is put between them unless `dir` is empty or already ends with one.
pub open spec fn joined(dir: Seq<char>, name: Seq<char>) -> Seq<char> {
    if name.len() > 0 && name[0] == '/' {
        name
    } else if dir.len() == 0 || dir.last() == '/' {
        dir + name
    } else {
        dir + seq!['/'] + name
    }
}

/// Builds paths of files in one directory.
pub struct PathBuilder {
    dir: String,
    path: String,
}

impl PathBuilder {
    /// The directory that the files are in.
    pub closed spec fn base(&self) -> Seq<char> {
        self.dir@
    }

    /// The path built last.
    pub closed spec fn current(&self) -> Seq<char> {
        self.path@
    }

    fn join(dir: &str, name: &str) -> (r: String)
        ensures
            r@ == joined(dir@, name@),
    {
        let n = name.unicode_len();
        if n > 0 && name.get_char(0) == '/' {
            return String::from_str(name);
        }
        let mut out = String::from_str(dir);
        let d = dir.unicode_len();
        if d > 0 && dir.get_char(d - 1) != '/' {
            out.append("/");
            proof {
                reveal_strlit("/");
            }
        }
        out.append(name);
        assert(out@ =~= joined(dir@, name@));
        out
    }

    /// A builder for files in the directory `basepath`; its current path is a placeholder file
    /// `_` in it.
    pub fn from_basepath(basepath: &str) -> (r: Self)
        ensures
            r.base() == basepath@,
            r.current() == joined(basepath@, seq!['_']),
    {
        proof {
            reveal_strlit("_");
        }
        Self { dir: String::from_str(basepath), path: Self::join(basepath, "_") }
    }

    /// The path of the file `name` in the directory.
    pub fn with_filename(&mut self, name: &str) -> (r: &str)
        ensures
            final(self).base() == old(self).base(),
            r@ == joined(old(self).base(), name@),
            final(self).current() == r@,
    {
        self.path = Self::join(self.dir.as_str(), name);
        self.path.as_str()
    }
}

} // verus!
