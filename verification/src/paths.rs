//! Output paths for `build --shared` and the Python wrapper, computed on
//! `/`-separated path text.
use vstd::prelude::*;
use crate::text::{chars_of, push_str, string_of};

verus! {

/// A path, as text.
#[derive(Debug)]
pub struct OutPath {
    text: String,
}

impl OutPath {
    pub closed spec fn text(&self) -> Seq<char> {
        self.text@
    }

    /// The path as text (always valid UTF-8 here).
    pub fn to_str(&self) -> (r: Option<&str>)
        ensures
            r matches Some(s) && s@ == self.text(),
    {
        Some(self.text.as_str())
    }
}

/// `s` without trailing `/` characters and trailing `.` components (`a/.`
/// names `a`), as path components are read.
pub open spec fn trim_slashes(s: Seq<char>) -> Seq<char>
    decreases s.len(),
{
    if s.len() > 0 && (s.last() == '/' || (s.last() == '.' && s.len() >= 2 && s[s.len() - 2] == '/')) {
        trim_slashes(s.drop_last())
    } else {
        s
    }
}

/// The index just after the last `/` of `s` (0 when there is none).
pub open spec fn last_slash_end(s: Seq<char>) -> int
    decreases s.len(),
{
    if s.len() == 0 {
        0
    } else if s.last() == '/' {
        s.len() as int
    } else {
        last_slash_end(s.drop_last())
    }
}

/// The final component of a path: the text after the last `/`, trailing
/// slashes ignored; none when it is empty, `.` or `..`.
pub open spec fn file_name_of(s: Seq<char>) -> Option<Seq<char>> {
    let t = trim_slashes(s);
    let n = t.subrange(last_slash_end(t), t.len() as int);
    if n.len() == 0 || n == seq!['.'] || n == seq!['.', '.'] {
        None
    } else {
        Some(n)
    }
}

/// The index of the last `.` of `s`, or -1.
pub open spec fn last_dot(s: Seq<char>) -> int
    decreases s.len(),
{
    if s.len() == 0 {
        -1
    } else if s.last() == '.' {
        s.len() - 1
    } else {
        last_dot(s.drop_last())
    }
}

/// A file name without its extension: everything before the last `.`,
/// unless that dot leads the name (a dotfile has no extension).
pub open spec fn stem_of(name: Seq<char>) -> Seq<char> {
    let d = last_dot(name);
    if d <= 0 {
        name
    } else {
        name.subrange(0, d)
    }
}

/// The path with its file name's extension replaced by `ext` (a path with no
/// file name is left as it is).
pub open spec fn with_extension(s: Seq<char>, ext: Seq<char>) -> Seq<char> {
    match file_name_of(s) {
        None => s,
        Some(n) => {
            let t = trim_slashes(s);
            t.subrange(0, last_slash_end(t)) + stem_of(n) + seq!['.'] + ext
        },
    }
}

fn trim_slashes_len(cs: &Vec<char>) -> (n: usize)
    ensures
        n <= cs.len(),
        cs@.take(n as int) == trim_slashes(cs@),
{
    let mut n: usize = cs.len();
    assert(cs@.take(n as int) == cs@);
    while n > 0 && (cs[n - 1] == '/' || (cs[n - 1] == '.' && n >= 2 && cs[n - 2] == '/'))
        invariant
            n <= cs.len(),
            trim_slashes(cs@) == trim_slashes(cs@.take(n as int)),
        decreases n,
    {
        assert(cs@.take(n as int).drop_last() == cs@.take(n - 1));
        n -= 1;
    }
    n
}

fn slash_end(cs: &Vec<char>, n: usize) -> (k: usize)
    requires
        n <= cs.len(),
    ensures
        k as int == last_slash_end(cs@.take(n as int)),
        k <= n,
{
    let mut k: usize = n;
    while k > 0 && cs[k - 1] != '/'
        invariant
            k <= n <= cs.len(),
            last_slash_end(cs@.take(n as int)) == last_slash_end(cs@.take(k as int)),
        decreases k,
    {
        assert(cs@.take(k as int).drop_last() == cs@.take(k - 1));
        k -= 1;
    }
    proof {
        if k > 0 {
            assert(cs@.take(k as int).last() == '/');
        }
    }
    k
}

fn dot_index(cs: &Vec<char>, lo: usize, hi: usize) -> (r: Option<usize>)
    requires
        lo <= hi <= cs.len(),
    ensures
        match r {
            Some(d) => lo <= d < hi && d - lo == last_dot(cs@.subrange(lo as int, hi as int)),
            None => last_dot(cs@.subrange(lo as int, hi as int)) == -1,
        },
{
    let mut k: usize = hi;
    while k > lo && cs[k - 1] != '.'
        invariant
            lo <= k <= hi <= cs.len(),
            last_dot(cs@.subrange(lo as int, hi as int)) == last_dot(cs@.subrange(lo as int, k as int)),
        decreases k,
    {
        assert(cs@.subrange(lo as int, k as int).drop_last() == cs@.subrange(lo as int, k - 1));
        k -= 1;
    }
    if k > lo {
        Some(k - 1)
    } else {
        None
    }
}

fn copy_range(cs: &Vec<char>, lo: usize, hi: usize, out: &mut Vec<char>)
    requires
        lo <= hi <= cs.len(),
    ensures
        final(out)@ == old(out)@ + cs@.subrange(lo as int, hi as int),
{
    let mut i: usize = lo;
    while i < hi
        invariant
            lo <= i <= hi <= cs.len(),
            out@ == old(out)@ + cs@.subrange(lo as int, i as int),
        decreases hi - i,
    {
        out.push(cs[i]);
        assert(cs@.subrange(lo as int, i + 1) == cs@.subrange(lo as int, i as int).push(cs@[i as int]));
        i += 1;
    }
}

/// Where the file name of `cs` lies: (start, end), if it has one.
fn file_name_range(cs: &Vec<char>) -> (r: Option<(usize, usize)>)
    ensures
        match r {
            Some((a, b)) => a <= b <= cs.len() && file_name_of(cs@) == Some(cs@.subrange(a as int, b as int))
                && a as int == last_slash_end(trim_slashes(cs@)) && cs@.take(b as int) == trim_slashes(cs@),
            None => file_name_of(cs@) is None,
        },
{
    let n = trim_slashes_len(cs);
    let a = slash_end(cs, n);
    let ghost t = trim_slashes(cs@);
    proof {
        assert(t.subrange(a as int, n as int) == cs@.subrange(a as int, n as int));
    }
    let len = n - a;
    let is_dot = len == 1 && cs[a] == '.';
    let is_dotdot = len == 2 && cs[a] == '.' && cs[a + 1] == '.';
    if len == 0 || is_dot || is_dotdot {
        proof {
            let nm = cs@.subrange(a as int, n as int);
            if is_dot {
                assert(nm =~= seq!['.']);
            }
            if is_dotdot {
                assert(nm =~= seq!['.', '.']);
            }
        }
        None
    } else {
        proof {
            let nm = cs@.subrange(a as int, n as int);
            assert(nm != seq!['.']) by {
                if nm == seq!['.'] {
                    assert(nm.len() == 1 && nm[0] == cs[a as int]);
                }
            }
            assert(nm != seq!['.', '.']) by {
                if nm == seq!['.', '.'] {
                    assert(nm[0] == cs[a as int] && nm[1] == cs[a + 1]);
                }
            }
        }
        Some((a, n))
    }
}

/// The shared object and header paths for `build --shared`: `out` names
/// the shared object and the header sits beside it with a `.h` extension;
/// without `out`, `libXz.so` and `libXz.h`.
pub fn shared_output_paths(out: Option<&str>) -> (r: (OutPath, OutPath))
    ensures
        match out {
            Some(p) => r.0.text() == p@ && r.1.text() == with_extension(p@, seq!['h']),
            None => r.0.text() == "libXz.so"@ && r.1.text() == "libXz.h"@,
        },
{
    match out {
        Some(path) => {
            let cs = chars_of(path);
            let lib = OutPath { text: path.to_string() };
            let header = match file_name_range(&cs) {
                None => OutPath { text: path.to_string() },
                Some((a, b)) => {
                    let mut v: Vec<char> = Vec::new();
                    copy_range(&cs, 0, a, &mut v);
                    let stem_end = match dot_index(&cs, a, b) {
                        Some(d) => if d > a { d } else { b },
                        None => b,
                    };
                    copy_range(&cs, a, stem_end, &mut v);
                    v.push('.');
                    v.push('h');
                    proof {
                        let t = trim_slashes(cs@);
                        let nm = cs@.subrange(a as int, b as int);
                        assert(t.subrange(0, a as int) == cs@.subrange(0, a as int));
                        assert(stem_of(nm) == cs@.subrange(a as int, stem_end as int)) by {
                            if stem_end < b {
                                assert(nm.subrange(0, stem_end - a) == cs@.subrange(a as int, stem_end as int));
                            } else {
                                assert(nm == cs@.subrange(a as int, b as int));
                            }
                        }
                        assert(v@ =~= t.subrange(0, a as int) + stem_of(nm) + seq!['.'] + seq!['h']);
                    }
                    OutPath { text: string_of(&v) }
                }
            };
            (lib, header)
        }
        None => (OutPath { text: "libXz.so".to_string() }, OutPath { text: "libXz.h".to_string() }),
    }
}

/// The Python wrapper's path: the source file's stem with `.py`, in the
/// current directory (`xz_bindings.py` when the source has no file name).
pub fn python_wrapper_path(source: &str) -> (r: OutPath)
    ensures
        r.text() == match file_name_of(source@) {
            Some(n) => stem_of(n) + ".py"@,
            None => "xz_bindings"@ + ".py"@,
        },
{
    let cs = chars_of(source);
    let mut s = match file_name_range(&cs) {
        None => "xz_bindings".to_string(),
        Some((a, b)) => {
            let stem_end = match dot_index(&cs, a, b) {
                Some(d) => if d > a { d } else { b },
                None => b,
            };
            let mut v: Vec<char> = Vec::new();
            copy_range(&cs, a, stem_end, &mut v);
            proof {
                let nm = cs@.subrange(a as int, b as int);
                assert(stem_of(nm) =~= v@) by {
                    if stem_end < b {
                        assert(nm.subrange(0, stem_end - a) =~= cs@.subrange(a as int, stem_end as int));
                    }
                }
            }
            string_of(&v)
        }
    };
    push_str(&mut s, ".py");
    OutPath { text: s }
}

} // verus!
