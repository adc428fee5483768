//! The sandbox root: its directory layout, the toolchain that is copied in, the
//! reading of the loader's dependency listing, and where host files land.
use vstd::prelude::*;
use crate::archive::under_root;
use crate::text::{
    is_ws, is_ws_char, keep_nonempty, push_str, slice_string, split_bounds, split_char, strings_of,
    to_chars, views,
};

verus! {

/// A sandbox root on the host.
pub struct ChrootEnv {
    root_path: String,
}

/// The pieces of `s` between white-space characters.
pub open spec fn split_ws(s: Seq<char>) -> Seq<Seq<char>>
    decreases s.len(),
{
    if s.len() == 0 {
        seq![Seq::<char>::empty()]
    } else {
        let p = split_ws(s.drop_last());
        if is_ws(s.last()) {
            p.push(Seq::<char>::empty())
        } else {
            p.update(p.len() - 1, p.last().push(s.last()))
        }
    }
}

/// The white-space separated words of `s`.
pub open spec fn words(s: Seq<char>) -> Seq<Seq<char>> {
    keep_nonempty(split_ws(s))
}

/// `s` holds `=>`.
pub open spec fn has_arrow(s: Seq<char>) -> bool {
    exists|i: int| 0 <= i < s.len() - 1 && #[trigger] s[i] == '=' && s[i + 1] == '>'
}

/// The library path on one line of the loader's dependency listing: the third word of
/// `name => path (addr)`, or the first word of `/path (addr)`.
pub open spec fn ldd_path(line: Seq<char>) -> Option<Seq<char>> {
    let w = words(line);
    if has_arrow(line) && w.len() >= 3 {
        Some(w[2])
    } else if !has_arrow(line) && w.len() >= 2 && w[0].len() > 0 && w[0][0] == '/' {
        Some(w[0])
    } else {
        None
    }
}

/// The library paths of a whole listing, in order.
pub open spec fn ldd_paths(lines: Seq<Seq<char>>) -> Seq<Seq<char>>
    decreases lines.len(),
{
    if lines.len() == 0 {
        Seq::empty()
    } else {
        let r = ldd_paths(lines.drop_last());
        match ldd_path(lines.last()) {
            Some(p) => r.push(p),
            None => r,
        }
    }
}

proof fn lemma_split_ws_nonempty(s: Seq<char>)
    ensures
        split_ws(s).len() >= 1,
    decreases s.len(),
{
    if s.len() > 0 {
        lemma_split_ws_nonempty(s.drop_last());
    }
}

/// The words of `v[lo..hi]`.
pub fn words_of(v: &Vec<char>, lo: usize, hi: usize) -> (r: Vec<String>)
    requires
        lo <= hi <= v@.len(),
    ensures
        views(r@) == words(v@.subrange(lo as int, hi as int)),
{
    let mut out: Vec<String> = Vec::new();
    let mut start = lo;
    let mut i = lo;
    proof {
        lemma_split_ws_nonempty(v@.subrange(lo as int, lo as int));
    }
    while i < hi
        invariant
            lo <= start <= i <= hi <= v@.len(),
            split_ws(v@.subrange(lo as int, i as int)).len() >= 1,
            views(out@) == keep_nonempty(split_ws(v@.subrange(lo as int, i as int)).drop_last()),
            v@.subrange(start as int, i as int) == split_ws(v@.subrange(lo as int, i as int)).last(),
        decreases hi - i,
    {
        let ghost prev = split_ws(v@.subrange(lo as int, i as int));
        assert(v@.subrange(lo as int, i + 1).drop_last() == v@.subrange(lo as int, i as int));
        proof {
            lemma_split_ws_nonempty(v@.subrange(lo as int, i + 1));
        }
        if is_ws_char(v[i]) {
            if start < i {
                let w = slice_string(v, start, i);
                let ghost before = out@;
                out.push(w);
                assert(out@.drop_last() == before);
                assert(views(out@) == views(before).push(w@));
            }
            let ghost next = split_ws(v@.subrange(lo as int, i + 1));
            assert(next == prev.push(Seq::<char>::empty()));
            assert(next.drop_last() == prev);
            assert(prev == prev.drop_last().push(prev.last()));
            start = i + 1;
            assert(v@.subrange(start as int, i + 1) == Seq::<char>::empty());
        } else {
            let ghost next = split_ws(v@.subrange(lo as int, i + 1));
            assert(next.drop_last() == prev.drop_last());
            assert(v@.subrange(start as int, i + 1) == v@.subrange(start as int, i as int).push(
                v@[i as int],
            ));
        }
        i += 1;
    }
    let ghost all = split_ws(v@.subrange(lo as int, hi as int));
    assert(all == all.drop_last().push(all.last()));
    if start < hi {
        let w = slice_string(v, start, hi);
        let ghost before = out@;
        out.push(w);
        assert(out@.drop_last() == before);
        assert(views(out@) == views(before).push(w@));
    }
    out
}

fn has_arrow_in(v: &Vec<char>, lo: usize, hi: usize) -> (r: bool)
    requires
        lo <= hi <= v@.len(),
    ensures
        r == has_arrow(v@.subrange(lo as int, hi as int)),
{
    let ghost s = v@.subrange(lo as int, hi as int);
    let mut i = lo;
    while hi > 0 && i < hi - 1
        invariant
            lo <= i <= hi <= v@.len(),
            s == v@.subrange(lo as int, hi as int),
            forall|j: int| 0 <= j < i - lo && j < s.len() - 1 ==> !(#[trigger] s[j] == '=' && s[j + 1] == '>'),
        decreases hi - i,
    {
        if v[i] == '=' && v[i + 1] == '>' {
            assert(s[i - lo] == '=' && s[i - lo + 1] == '>');
            return true;
        }
        i += 1;
    }
    false
}

/// The library paths listed by the loader's dependency tool, in order.
pub fn parse_ldd_output(output: &str) -> (r: Vec<String>)
    ensures
        views(r@) == ldd_paths(split_char(output@, '\n')),
{
    let v = to_chars(output);
    let n = v.len();
    assert(v@.subrange(0, n as int) == output@);
    let ghost ls = split_char(output@, '\n');
    let lines = split_bounds(&v, 0, n, '\n');
    let mut out: Vec<String> = Vec::new();
    let mut k: usize = 0;
    while k < lines.len()
        invariant
            n == v@.len(),
            ls == split_char(output@, '\n'),
            lines@.len() == ls.len(),
            forall|j: int|
                0 <= j < lines@.len() ==> (#[trigger] lines@[j]).0 <= lines@[j].1 <= n
                    && v@.subrange(lines@[j].0 as int, lines@[j].1 as int) == ls[j],
            k <= lines@.len(),
            views(out@) == ldd_paths(ls.take(k as int)),
        decreases lines@.len() - k,
    {
        let (a, b) = lines[k];
        assert(lines@[k as int] == (a, b));
        assert(ls.take(k + 1).drop_last() == ls.take(k as int));
        assert(ls.take(k + 1).last() == ls[k as int]);
        let w = words_of(&v, a, b);
        let arrow = has_arrow_in(&v, a, b);
        let ghost before = out@;
        if arrow && w.len() >= 3 {
            assert(views(w@)[2] == w@[2]@);
            out.push(w[2].clone());
            assert(out@.drop_last() == before);
            assert(views(out@) == views(before).push(w@[2]@));
        } else if !arrow && w.len() >= 2 {
            let first = to_chars(w[0].as_str());
            assert(views(w@)[0] == w@[0]@);
            if first.len() > 0 && first[0] == '/' {
                out.push(w[0].clone());
                assert(out@.drop_last() == before);
                assert(views(out@) == views(before).push(w@[0]@));
            }
        }
        k += 1;
    }
    assert(ls.take(k as int) == ls);
    out
}

/// The directories of a sandbox root, relative to it.
pub open spec fn sandbox_dirs_spec() -> Seq<Seq<char>> {
    seq![
        "bin"@, "usr/bin"@, "lib"@, "lib64"@, "proc"@, "dev"@, "sys"@, "etc"@, "build"@,
        "tmp"@,
    ]
}

/// The toolchain binaries that a sandbox is given, when the host has them.
pub open spec fn toolchain_spec() -> Seq<Seq<char>> {
    seq![
        "bash"@, "sh"@, "env"@, "make"@, "gcc"@, "g++"@, "cargo"@, "meson"@, "ninja"@,
        "cmake"@, "git"@, "scons"@, "python"@, "ld"@,
    ]
}

/// Whether `v` holds `s`.
pub fn holds(v: &Vec<String>, s: &String) -> (r: bool)
    ensures
        r == views(v@).contains(s@),
{
    let mut i: usize = 0;
    while i < v.len()
        invariant
            i <= v@.len(),
            forall|j: int| 0 <= j < i ==> views(v@)[j] != s@,
        decreases v@.len() - i,
    {
        if v[i] == *s {
            assert(views(v@)[i as int] == s@);
            return true;
        }
        i += 1;
    }
    false
}

impl ChrootEnv {
    pub closed spec fn root(&self) -> Seq<char> {
        self.root_path@
    }

    pub fn new(path: &str) -> (r: Self)
        ensures
            r.root() == path@,
    {
        ChrootEnv { root_path: String::from_str(path) }
    }

    pub fn root_path(&self) -> (r: &String)
        ensures
            r@ == self.root(),
    {
        &self.root_path
    }

    /// The directories to create, under the root.
    pub fn layout_dirs(&self) -> (r: Vec<String>)
        ensures
            views(r@) == sandbox_dirs_spec().map_values(|d: Seq<char>| under_root(self.root(), d)),
    {
        let rel = strings_of(
            &["bin", "usr/bin", "lib", "lib64", "proc", "dev", "sys", "etc", "build", "tmp"],
        );
        let ghost want = sandbox_dirs_spec();
        assert(rel@.len() == want.len());
        let mut out: Vec<String> = Vec::new();
        let mut i: usize = 0;
        while i < rel.len()
            invariant
                i <= rel@.len() == want.len(),
                want == sandbox_dirs_spec(),
                forall|j: int| 0 <= j < rel@.len() ==> (#[trigger] rel@[j])@ == want[j],
                views(out@) == want.take(i as int).map_values(|d: Seq<char>| under_root(self.root(), d)),
            decreases rel@.len() - i,
        {
            let ghost before = out@;
            out.push(self.in_root(&rel[i]));
            assert(out@.drop_last() == before);
            assert(views(out@) =~= views(before).push(under_root(self.root(), rel@[i as int]@)));
            assert(want.take(i + 1) =~= want.take(i as int).push(want[i as int]));
            assert(views(out@) =~= want.take(i + 1).map_values(
                |d: Seq<char>| under_root(self.root(), d),
            ));
            i += 1;
        }
        assert(want.take(i as int) == want);
        out
    }

    /// The toolchain binaries to look up on the host.
    pub fn toolchain(&self) -> (r: Vec<String>)
        ensures
            views(r@) == toolchain_spec(),
    {
        let r = strings_of(
            &[
                "bash", "sh", "env", "make", "gcc", "g++", "cargo", "meson", "ninja", "cmake",
                "git", "scons", "python", "ld",
            ],
        );
        assert(views(r@) =~= toolchain_spec());
        r
    }

    /// `rel` under the root.
    pub fn in_root(&self, rel: &String) -> (r: String)
        ensures
            r@ == under_root(self.root(), rel@),
    {
        let rv = to_chars(self.root_path.as_str());
        let mut s = self.root_path.clone();
        if !(rv.len() > 0 && rv[rv.len() - 1] == '/') {
            push_str(&mut s, "/");
        }
        push_str(&mut s, rel.as_str());
        s
    }

    /// Where a host file lands inside the sandbox: at the same absolute path.
    pub fn host_file_dest(&self, host_path: &str) -> (r: String)
        ensures
            ({
                let h = host_path@;
                let rel = if h.len() > 0 && h[0] == '/' { h.drop_first() } else { h };
                r@ == under_root(self.root(), rel)
            }),
    {
        let v = to_chars(host_path);
        let rel = if v.len() > 0 && v[0] == '/' {
            slice_string(&v, 1, v.len())
        } else {
            slice_string(&v, 0, v.len())
        };
        assert(v@.subrange(0, v@.len() as int) == v@);
        assert(v@.len() > 0 ==> v@.subrange(1, v@.len() as int) == v@.drop_first());
        self.in_root(&rel)
    }

    /// The mount points to detach on cleanup: `proc`, `dev`, `sys` under the root.
    pub fn mount_points(&self) -> (r: Vec<String>)
        ensures
            views(r@) == seq![
                under_root(self.root(), "proc"@),
                under_root(self.root(), "dev"@),
                under_root(self.root(), "sys"@),
            ],
    {
        let mut r: Vec<String> = Vec::new();
        r.push(self.in_root(&String::from_str("proc")));
        r.push(self.in_root(&String::from_str("dev")));
        r.push(self.in_root(&String::from_str("sys")));
        assert(views(r@) =~= seq![
            under_root(self.root(), "proc"@),
            under_root(self.root(), "dev"@),
            under_root(self.root(), "sys"@),
        ]);
        r
    }
}

/// The closure files of a binary (the binary, then its libraries) that have not been
/// copied yet, each once, in order.
pub open spec fn pending_copies(closure: Seq<Seq<char>>, copied: Seq<Seq<char>>) -> Seq<Seq<char>>
    decreases closure.len(),
{
    if closure.len() == 0 {
        Seq::empty()
    } else {
        let r = pending_copies(closure.drop_last(), copied);
        let f = closure.last();
        if copied.contains(f) || r.contains(f) {
            r
        } else {
            r.push(f)
        }
    }
}

/// The files to copy for a binary found at `binary`, given the loader's listing
/// `ldd_output` and the files already copied.
pub fn files_to_copy(binary: &String, ldd_output: &str, copied: &Vec<String>) -> (r: Vec<String>)
    ensures
        views(r@) == pending_copies(
            seq![binary@] + ldd_paths(split_char(ldd_output@, '\n')),
            views(copied@),
        ),
{
    let mut closure: Vec<String> = Vec::new();
    closure.push(binary.clone());
    let libs = parse_ldd_output(ldd_output);
    let mut i: usize = 0;
    while i < libs.len()
        invariant
            i <= libs@.len(),
            views(closure@) == seq![binary@] + views(libs@).take(i as int),
        decreases libs@.len() - i,
    {
        let ghost before = closure@;
        closure.push(libs[i].clone());
        assert(closure@.drop_last() == before);
        assert(views(closure@) =~= views(before).push(libs@[i as int]@));
        assert(views(libs@)[i as int] == libs@[i as int]@);
        assert(views(libs@).take(i + 1) =~= views(libs@).take(i as int).push(libs@[i as int]@));
        assert(views(closure@) =~= seq![binary@] + views(libs@).take(i + 1));
        i += 1;
    }
    assert(views(libs@).take(i as int) == views(libs@));
    let ghost cl = views(closure@);
    let mut out: Vec<String> = Vec::new();
    let mut k: usize = 0;
    while k < closure.len()
        invariant
            k <= closure@.len(),
            cl == views(closure@),
            views(out@) == pending_copies(cl.take(k as int), views(copied@)),
        decreases closure@.len() - k,
    {
        assert(cl.take(k + 1).drop_last() == cl.take(k as int));
        assert(cl.take(k + 1).last() == closure@[k as int]@);
        if !holds(copied, &closure[k]) && !holds(&out, &closure[k]) {
            let ghost before = out@;
            out.push(closure[k].clone());
            assert(out@.drop_last() == before);
            assert(views(out@) == views(before).push(closure@[k as int]@));
        }
        k += 1;
    }
    assert(cl.take(k as int) == cl);
    out
}

} // verus!
