//! Maven coordinates and the repository layout they map to.
use vstd::prelude::*;

use crate::config::{join_path, path_join};
use crate::resolve::{find_char, find_char_from};
use crate::text::concat;

verus! {

/// The central Maven repository.
pub const MAVEN_CENTRAL: &'static str = "https://repo1.maven.org/maven2";

/// A `group:artifact:version` coordinate.
pub struct MavenCoord {
    pub group_id: String,
    pub artifact_id: String,
    pub version: String,
}

/// Why a coordinate could not be read.
pub enum CoordError {
    /// The text is not three `:`-separated parts.
    Invalid { text: String },
}

impl CoordError {
    /// A one-line description naming the text.
    pub fn message(&self) -> (r: String)
        ensures
            r@.len() > 0,
    {
        match self {
            CoordError::Invalid { text } => {
                proof {
                    reveal_strlit("invalid Maven coordinate (expected group:artifact:version): ");
                }
                concat("invalid Maven coordinate (expected group:artifact:version): ", text.as_str())
            },
        }
    }
}

/// The three parts of `s` when it holds exactly two `:`.
pub open spec fn coord_parts(s: Seq<char>) -> Option<(Seq<char>, Seq<char>, Seq<char>)> {
    match find_char(s, ':', 0) {
        None => None,
        Some(i) => match find_char(s, ':', i + 1) {
            None => None,
            Some(j) => if find_char(s, ':', j + 1) is Some {
                None
            } else {
                Some((s.subrange(0, i), s.subrange(i + 1, j), s.subrange(j + 1, s.len() as int)))
            },
        },
    }
}

/// `s` with every `.` replaced by `/`.
pub open spec fn dots_to_slashes(s: Seq<char>) -> Seq<char> {
    s.map_values(|c: char| if c == '.' { '/' } else { c })
}

impl MavenCoord {
    /// The coordinate of the given parts.
    pub fn new(group_id: String, artifact_id: String, version: String) -> (r: MavenCoord)
        ensures
            r.group_id@ == group_id@,
            r.artifact_id@ == artifact_id@,
            r.version@ == version@,
    {
        MavenCoord { group_id, artifact_id, version }
    }

    /// Reads `group:artifact:version` (see `coord_parts`).
    pub fn parse(s: &str) -> (r: Result<MavenCoord, CoordError>)
        ensures
            match coord_parts(s@) {
                Some((g, a, v)) => r matches Ok(c) && c.group_id@ == g && c.artifact_id@ == a && c.version@ == v,
                None => r matches Err(CoordError::Invalid { text }) && text@ == s@,
            },
    {
        let n = s.unicode_len();
        let i = match find_char_from(s, ':', 0) {
            Some(i) => i,
            None => {
                return Err(CoordError::Invalid { text: String::from_str(s) });
            },
        };
        let j = match find_char_from(s, ':', i + 1) {
            Some(j) => j,
            None => {
                return Err(CoordError::Invalid { text: String::from_str(s) });
            },
        };
        if find_char_from(s, ':', j + 1).is_some() {
            return Err(CoordError::Invalid { text: String::from_str(s) });
        }
        Ok(MavenCoord {
            group_id: String::from_str(s.substring_char(0, i)),
            artifact_id: String::from_str(s.substring_char(i + 1, j)),
            version: String::from_str(s.substring_char(j + 1, n)),
        })
    }

    /// The repository directory: the group with `.` as `/`, the artifact
    /// and the version, separated by `/`.
    pub open spec fn spec_repo_path(&self) -> Seq<char> {
        dots_to_slashes(self.group_id@) + "/"@ + self.artifact_id@ + "/"@ + self.version@
    }

    /// The repository directory (see `spec_repo_path`).
    pub fn repo_path(&self) -> (r: String)
        ensures
            r@ == self.spec_repo_path(),
    {
        let g = self.group_id.as_str();
        let n = g.unicode_len();
        let mut out = String::new();
        let mut i: usize = 0;
        while i < n
            invariant
                n == g@.len(),
                i <= n,
                out@ == dots_to_slashes(g@.subrange(0, i as int)),
            decreases n - i,
        {
            if g.get_char(i) == '.' {
                out.append("/");
            } else {
                out.append(g.substring_char(i, i + 1));
            }
            proof {
                reveal_strlit("/");
                assert(out@ =~= dots_to_slashes(g@.subrange(0, i + 1)));
            }
            i = i + 1;
        }
        out.append("/");
        out.append(self.artifact_id.as_str());
        out.append("/");
        out.append(self.version.as_str());
        assert(g@.subrange(0, n as int) =~= g@);
        assert(out@ =~= self.spec_repo_path());
        out
    }

    /// The file name of the artifact with extension `ext`.
    pub open spec fn spec_filename(&self, ext: Seq<char>) -> Seq<char> {
        self.artifact_id@ + "-"@ + self.version@ + "."@ + ext
    }

    fn filename(&self, ext: &str) -> (r: String)
        ensures
            r@ == self.spec_filename(ext@),
    {
        let mut s = concat(self.artifact_id.as_str(), "-");
        s.append(self.version.as_str());
        s.append(".");
        s.append(ext);
        s
    }

    /// The repository URL of a file of this coordinate.
    pub open spec fn spec_url(&self, ext: Seq<char>) -> Seq<char> {
        MAVEN_CENTRAL@ + "/"@ + self.spec_repo_path() + "/"@ + self.spec_filename(ext)
    }

    fn url(&self, ext: &str) -> (r: String)
        ensures
            r@ == self.spec_url(ext@),
    {
        let mut s = concat(MAVEN_CENTRAL, "/");
        s.append(self.repo_path().as_str());
        s.append("/");
        s.append(self.filename(ext).as_str());
        s
    }

    /// The URL of the POM.
    pub fn pom_url(&self) -> (r: String)
        ensures
            r@ == self.spec_url("pom"@),
    {
        self.url("pom")
    }

    /// The URL of the JAR.
    pub fn jar_url(&self) -> (r: String)
        ensures
            r@ == self.spec_url("jar"@),
    {
        self.url("jar")
    }

    /// Where a file of this coordinate is kept below `cache_root`.
    pub open spec fn spec_local_path(&self, cache_root: Seq<char>, ext: Seq<char>) -> Seq<char> {
        path_join(path_join(cache_root, self.spec_repo_path()), self.spec_filename(ext))
    }

    /// Where the POM is kept below `cache_root`.
    pub fn local_pom_path(&self, cache_root: &str) -> (r: String)
        ensures
            r@ == self.spec_local_path(cache_root@, "pom"@),
    {
        let dir = join_path(cache_root, self.repo_path().as_str());
        join_path(dir.as_str(), self.filename("pom").as_str())
    }

    /// Where the JAR is kept below `cache_root`.
    pub fn local_jar_path(&self, cache_root: &str) -> (r: String)
        ensures
            r@ == self.spec_local_path(cache_root@, "jar"@),
    {
        let dir = join_path(cache_root, self.repo_path().as_str());
        join_path(dir.as_str(), self.filename("jar").as_str())
    }

    /// The key under which versions of one artifact are deduplicated.
    pub fn key(&self) -> (r: (String, String))
        ensures
            r.0@ == self.group_id@,
            r.1@ == self.artifact_id@,
    {
        (self.group_id.clone(), self.artifact_id.clone())
    }

    /// The `group:artifact:version` text.
    pub fn coordinate(&self) -> (r: String)
        ensures
            r@ == self.group_id@ + ":"@ + self.artifact_id@ + ":"@ + self.version@,
    {
        let mut s = concat(self.group_id.as_str(), ":");
        s.append(self.artifact_id.as_str());
        s.append(":");
        s.append(self.version.as_str());
        s
    }
}

} // verus!
