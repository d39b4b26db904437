//! The classpaths of a build and the fingerprint of its dependencies.
use vstd::prelude::*;

use crate::cache::{dependency_fingerprint, joined_bytes, sorted, xxh3_of};
use crate::config::SbConfig;
use crate::text::{concat, texts};

verus! {

/// The compiler's classpath and the project's classpath.
pub struct ResolvedClasspath {
    pub compiler_cp: String,
    pub user_cp: String,
}

/// The index of the first `c` in `s` at or after `from`.
pub open spec fn find_char(s: Seq<char>, c: char, from: int) -> Option<int>
    decreases s.len() - from,
{
    if from >= s.len() || from < 0 {
        None
    } else if s[from] == c {
        Some(from)
    } else {
        find_char(s, c, from + 1)
    }
}

proof fn lemma_find_char(s: Seq<char>, c: char, from: int)
    ensures
        find_char(s, c, from) matches Some(i) ==> from <= i < s.len() && s[i] == c,
    decreases s.len() - from,
{
    if 0 <= from < s.len() && s[from] != c {
        lemma_find_char(s, c, from + 1);
    }
}

/// The index of the first `c` in `s` at or after `from` (see `find_char`).
pub fn find_char_from(s: &str, c: char, from: usize) -> (r: Option<usize>)
    ensures
        r matches Some(i) ==> find_char(s@, c, from as int) == Some(i as int) && from <= i < s@.len(),
        r is None ==> find_char(s@, c, from as int) is None,
{
    let n = s.unicode_len();
    let mut i = from;
    while i < n
        invariant
            n == s@.len(),
            from <= i,
            find_char(s@, c, from as int) == find_char(s@, c, i as int),
        decreases n - i,
    {
        if s.get_char(i) == c {
            return Some(i);
        }
        i = i + 1;
    }
    None
}

/// A line of `lines`, without a trailing carriage return.
pub open spec fn strip_cr(l: Seq<char>) -> Seq<char> {
    if l.len() > 0 && l.last() == '\r' {
        l.drop_last()
    } else {
        l
    }
}

/// The first two lines of `s`, as `str::lines` gives them: `None` when `s`
/// has no line break or nothing after its first one.
pub open spec fn two_lines(s: Seq<char>) -> Option<(Seq<char>, Seq<char>)> {
    match find_char(s, '\n', 0) {
        None => None,
        Some(i) => if i + 1 >= s.len() {
            None
        } else {
            let second = match find_char(s, '\n', i + 1) {
                Some(j) => s.subrange(i + 1, j),
                None => s.subrange(i + 1, s.len() as int),
            };
            Some((strip_cr(s.subrange(0, i)), strip_cr(second)))
        },
    }
}

fn strip_cr_text(l: &str) -> (r: String)
    ensures
        r@ == strip_cr(l@),
{
    let n = l.unicode_len();
    if n > 0 && l.get_char(n - 1) == '\r' {
        String::from_str(l.substring_char(0, n - 1))
    } else {
        String::from_str(l)
    }
}

impl ResolvedClasspath {
    /// The two classpaths on two lines.
    pub fn serialize(&self) -> (r: String)
        ensures
            r@ == self.compiler_cp@ + "\n"@ + self.user_cp@,
    {
        let mut s = concat(self.compiler_cp.as_str(), "\n");
        s.append(self.user_cp.as_str());
        s
    }

    /// The classpaths from the first two lines of `s` (see `two_lines`).
    pub fn deserialize(s: &str) -> (r: Option<ResolvedClasspath>)
        ensures
            match two_lines(s@) {
                Some((a, b)) => r matches Some(c) && c.compiler_cp@ == a && c.user_cp@ == b,
                None => r is None,
            },
    {
        let n = s.unicode_len();
        let i = match find_char_from(s, '\n', 0) {
            Some(i) => i,
            None => {
                return None;
            },
        };
        if i + 1 >= n {
            return None;
        }
        let end = match find_char_from(s, '\n', i + 1) {
            Some(j) => j,
            None => n,
        };
        proof {
            lemma_find_char(s@, '\n', i + 1);
        }
        let first = strip_cr_text(s.substring_char(0, i));
        let second = strip_cr_text(s.substring_char(i + 1, end));
        Some(ResolvedClasspath { compiler_cp: first, user_cp: second })
    }
}

/// The fingerprint of a configuration's dependencies and compiler version
/// (see `dependency_fingerprint`).
pub fn dep_hash(config: &SbConfig) -> (r: u64)
    ensures
        exists|s: Seq<Seq<char>>|
            sorted(s) && s.to_multiset() == texts(config.project.dependencies@).to_multiset() && r == xxh3_of(
                joined_bytes(seq![config.project.scala_version@] + s),
            ),
{
    dependency_fingerprint(&config.project.scala_version, &config.project.dependencies)
}

/// The resolver coordinate of a dependency: `org::name:version` (a
/// cross-built library) becomes `org:name_3:version`; any other text is
/// kept as it is.
pub open spec fn dep_coord(dep: Seq<char>) -> Seq<char> {
    match find_char(dep, ':', 0) {
        Some(i) => if i + 1 < dep.len() && dep[i + 1] == ':' {
            let rest = dep.subrange(i + 2, dep.len() as int);
            match find_char(rest, ':', 0) {
                Some(j) => dep.subrange(0, i) + ":"@ + rest.subrange(0, j) + "_3:"@ + rest.subrange(
                    j + 1,
                    rest.len() as int,
                ),
                None => dep,
            }
        } else {
            dep
        },
        None => dep,
    }
}

/// The resolver coordinate of a dependency (see `dep_coord`).
pub fn resolve_dep_coord(dep: &str, _scala_version: &str) -> (r: String)
    ensures
        r@ == dep_coord(dep@),
{
    let n = dep.unicode_len();
    match find_char_from(dep, ':', 0) {
        Some(i) => {
            if i + 1 < n && dep.get_char(i + 1) == ':' {
                let rest = dep.substring_char(i + 2, n);
                let m = rest.unicode_len();
                match find_char_from(rest, ':', 0) {
                    Some(j) => {
                        let mut s = String::from_str(dep.substring_char(0, i));
                        s.append(":");
                        s.append(rest.substring_char(0, j));
                        s.append("_3:");
                        s.append(rest.substring_char(j + 1, m));
                        assert(s@ =~= dep_coord(dep@));
                        s
                    },
                    None => String::from_str(dep),
                }
            } else {
                String::from_str(dep)
            }
        },
        None => String::from_str(dep),
    }
}

} // verus!
