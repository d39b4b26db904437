//! The compiler invocation and the progress lines of a build.
use vstd::prelude::*;

use crate::decimal::{decimal, push_decimal};
use crate::resolve::ResolvedClasspath;
use crate::text::texts;

verus! {

/// What a build hands to the commands that follow it.
pub struct CompileResult {
    /// The classpaths the build used.
    pub resolved: ResolvedClasspath,
}

/// The arguments of the compiler's launcher: the compiler's classpath and
/// main class, the user classpath (after `extra_dir` when there is one),
/// the output directory, the options, then the sources.
pub open spec fn compiler_args_of(
    compiler_cp: Seq<char>,
    user_cp: Seq<char>,
    extra_dir: Option<Seq<char>>,
    classes_dir: Seq<char>,
    options: Seq<Seq<char>>,
    sources: Seq<Seq<char>>,
) -> Seq<Seq<char>> {
    let cp = match extra_dir {
        Some(d) => d + ":"@ + user_cp,
        None => user_cp,
    };
    seq![
        "--sun-misc-unsafe-memory-access=allow"@,
        "-cp"@,
        compiler_cp,
        "dotty.tools.dotc.Main"@,
        "-classpath"@,
        cp,
        "-d"@,
        classes_dir,
    ] + options + sources
}

fn push_all(out: &mut Vec<String>, items: &Vec<String>)
    ensures
        texts(final(out)@) == texts(old(out)@) + texts(items@),
{
    let ghost start = texts(out@);
    let mut i: usize = 0;
    while i < items.len()
        invariant
            i <= items@.len(),
            texts(out@) == start + texts(items@.subrange(0, i as int)),
            out@.len() == start.len() + i,
        decreases items@.len() - i,
    {
        let ghost before = out@;
        let c = items[i].clone();
        out.push(c);
        proof {
            assert(out@ == before.push(c));
            assert(texts(out@) =~= texts(before).push(c@));
            assert(texts(items@.subrange(0, i + 1)) =~= texts(items@.subrange(0, i as int)).push(items@[i as int]@));
            assert(texts(out@) =~= start + texts(items@.subrange(0, i + 1)));
        }
        i = i + 1;
    }
    assert(items@.subrange(0, items@.len() as int) =~= items@);
}

/// The launcher arguments of one compiler run (see `compiler_args_of`).
pub fn compiler_args(
    compiler_cp: &str,
    user_cp: &str,
    extra_dir: Option<&str>,
    classes_dir: &str,
    options: &Vec<String>,
    sources: &Vec<String>,
) -> (r: Vec<String>)
    ensures
        texts(r@) == compiler_args_of(
            compiler_cp@,
            user_cp@,
            match extra_dir {
                Some(d) => Some(d@),
                None => None,
            },
            classes_dir@,
            texts(options@),
            texts(sources@),
        ),
{
    let mut out: Vec<String> = Vec::new();
    out.push(String::from_str("--sun-misc-unsafe-memory-access=allow"));
    out.push(String::from_str("-cp"));
    out.push(String::from_str(compiler_cp));
    out.push(String::from_str("dotty.tools.dotc.Main"));
    out.push(String::from_str("-classpath"));
    let cp = match extra_dir {
        Some(d) => {
            let mut c = String::from_str(d);
            c.append(":");
            c.append(user_cp);
            c
        },
        None => String::from_str(user_cp),
    };
    out.push(cp);
    out.push(String::from_str("-d"));
    out.push(String::from_str(classes_dir));
    let ghost head = texts(out@);
    push_all(&mut out, options);
    push_all(&mut out, sources);
    proof {
        let ed = match extra_dir {
            Some(d) => Some(d@),
            None => None,
        };
        assert(head =~= compiler_args_of(compiler_cp@, user_cp@, ed, classes_dir@, Seq::empty(), Seq::empty()));
        assert(texts(out@) =~= compiler_args_of(compiler_cp@, user_cp@, ed, classes_dir@, texts(options@), texts(sources@)));
    }
    out
}

/// The progress line of a compile round: the number of sources, with a
/// plural `s` unless there is one, and the round number after the first.
pub open spec fn compiling_line(n: nat, round: nat) -> Seq<char> {
    "Compiling "@ + decimal(n) + " source file"@ + (if n == 1 {
        Seq::empty()
    } else {
        "s"@
    }) + if round <= 1 {
        "..."@
    } else {
        " (round "@ + decimal(round) + ")..."@
    }
}

/// The progress line of a compile round (see `compiling_line`).
pub fn compiling_message(n: usize, round: u32) -> (r: String)
    ensures
        r@ == compiling_line(n as nat, round as nat),
{
    let mut s = String::from_str("Compiling ");
    push_decimal(&mut s, n as u64);
    s.append(" source file");
    if n != 1 {
        s.append("s");
    }
    if round <= 1 {
        s.append("...");
    } else {
        s.append(" (round ");
        push_decimal(&mut s, round as u64);
        s.append(")...");
    }
    proof {
        assert(s@ =~= compiling_line(n as nat, round as nat));
    }
    s
}

} // verus!
