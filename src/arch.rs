//! Architecture tokens: normalization, the host alias table, and gating.
use vstd::prelude::*;
use crate::text::{range_eq, to_chars, trim, trim_bounds, views};

verus! {

/// `-` becomes `_`, ASCII upper case becomes lower case.
pub open spec fn norm_char(c: char) -> char {
    if c == '-' {
        '_'
    } else if 'A' <= c <= 'Z' {
        ((c as u8) + 32) as char
    } else {
        c
    }
}

/// A token as compared: trimmed, then each character normalized.
pub open spec fn norm_token(s: Seq<char>) -> Seq<char> {
    trim(s).map_values(|c: char| norm_char(c))
}

/// An index key as compared: each character normalized, nothing trimmed.
pub open spec fn norm_key(s: Seq<char>) -> Seq<char> {
    s.map_values(|c: char| norm_char(c))
}

/// An index key names one of the host's tokens.
pub open spec fn key_matches(key: Seq<char>, token: Seq<char>) -> bool {
    norm_key(key) == norm_key(token)
}

/// The names under which a host architecture is known.
pub open spec fn host_aliases(host: Seq<char>) -> Seq<Seq<char>> {
    if host == "x86_64"@ {
        seq!["x86_64"@, "amd64"@, "x64"@]
    } else if host == "aarch64"@ {
        seq!["aarch64"@, "arm64"@]
    } else if host == "arm"@ {
        seq!["arm"@, "armv7"@, "armhf"@, "armv7l"@]
    } else if host == "x86"@ || host == "i686"@ {
        seq!["x86"@, "i686"@, "i386"@]
    } else if host == "powerpc64"@ || host == "powerpc64le"@ {
        seq!["powerpc64"@, "ppc64"@, "ppc64le"@]
    } else {
        seq![host]
    }
}

/// The tokens a host accepts, in order of preference: its aliases, then `any`, then `noarch`.
pub open spec fn accepted_tokens(host: Seq<char>) -> Seq<Seq<char>> {
    host_aliases(host) + seq!["any"@, "noarch"@]
}

/// Two tokens name the same architecture.
pub open spec fn token_matches(a: Seq<char>, b: Seq<char>) -> bool {
    norm_token(a) == norm_token(b)
}

/// A declared architecture list admits the host: it is empty (universal), or one of its
/// tokens matches a token that the host accepts.
pub open spec fn arch_supported(declared: Seq<Seq<char>>, host: Seq<char>) -> bool {
    declared.len() == 0 || exists|i: int, j: int|
        0 <= i < declared.len() && 0 <= j < accepted_tokens(host).len() && token_matches(
            #[trigger] declared[i],
            #[trigger] accepted_tokens(host)[j],
        )
}

fn norm_char_exec(c: char) -> (r: char)
    ensures
        r == norm_char(c),
{
    if c == '-' {
        '_'
    } else if 'A' <= c && c <= 'Z' {
        ((c as u8) + 32) as char
    } else {
        c
    }
}

fn norm_range(v: &Vec<char>, a: usize, b: usize) -> (r: Vec<char>)
    requires
        a <= b <= v@.len(),
    ensures
        r@ == v@.subrange(a as int, b as int).map_values(|c: char| norm_char(c)),
{
    let mut out: Vec<char> = Vec::new();
    let mut i = a;
    while i < b
        invariant
            a <= i <= b <= v@.len(),
            out@ == v@.subrange(a as int, i as int).map_values(|c: char| norm_char(c)),
        decreases b - i,
    {
        out.push(norm_char_exec(v[i]));
        assert(v@.subrange(a as int, i + 1).map_values(|c: char| norm_char(c)) =~= v@.subrange(
            a as int,
            i as int,
        ).map_values(|c: char| norm_char(c)).push(norm_char(v@[i as int])));
        i += 1;
    }
    out
}

/// The normalized form of a recipe token `s` (trimmed).
pub fn normalize_token(s: &str) -> (r: Vec<char>)
    ensures
        r@ == norm_token(s@),
{
    let v = to_chars(s);
    let (a, b) = trim_bounds(&v, 0, v.len());
    assert(v@.subrange(0, v@.len() as int) == s@);
    norm_range(&v, a, b)
}

/// The normalized form of an index key `s` (not trimmed).
pub fn normalize_key(s: &str) -> (r: Vec<char>)
    ensures
        r@ == norm_key(s@),
{
    let v = to_chars(s);
    assert(v@.subrange(0, v@.len() as int) == s@);
    norm_range(&v, 0, v.len())
}

fn lit_tokens(a: &str, b: &str, c: &str, d: &str, n: usize) -> (r: Vec<Vec<char>>)
    requires
        1 <= n <= 4,
    ensures
        r@.len() == n,
        r@[0]@ == a@,
        n > 1 ==> r@[1]@ == b@,
        n > 2 ==> r@[2]@ == c@,
        n > 3 ==> r@[3]@ == d@,
{
    let mut r: Vec<Vec<char>> = Vec::new();
    r.push(to_chars(a));
    if n > 1 {
        r.push(to_chars(b));
    }
    if n > 2 {
        r.push(to_chars(c));
    }
    if n > 3 {
        r.push(to_chars(d));
    }
    r
}

fn is_lit(v: &Vec<char>, s: &str) -> (r: bool)
    ensures
        r == (v@ == s@),
{
    let w = to_chars(s);
    assert(v@.subrange(0, v@.len() as int) == v@);
    range_eq(v, 0, v.len(), &w)
}

/// The tokens that `host` accepts, in order of preference.
pub fn accepted_tokens_of(host: &str) -> (r: Vec<Vec<char>>)
    ensures
        r@.len() == accepted_tokens(host@).len(),
        forall|j: int| 0 <= j < r@.len() ==> (#[trigger] r@[j])@ == accepted_tokens(host@)[j],
{
    let h = to_chars(host);
    let mut r = if is_lit(&h, "x86_64") {
        lit_tokens("x86_64", "amd64", "x64", "", 3)
    } else if is_lit(&h, "aarch64") {
        lit_tokens("aarch64", "arm64", "", "", 2)
    } else if is_lit(&h, "arm") {
        lit_tokens("arm", "armv7", "armhf", "armv7l", 4)
    } else if is_lit(&h, "x86") || is_lit(&h, "i686") {
        lit_tokens("x86", "i686", "i386", "", 3)
    } else if is_lit(&h, "powerpc64") || is_lit(&h, "powerpc64le") {
        lit_tokens("powerpc64", "ppc64", "ppc64le", "", 3)
    } else {
        lit_tokens(host, "", "", "", 1)
    };
    let ghost al = host_aliases(host@);
    assert(r@.len() == al.len());
    assert(forall|j: int| 0 <= j < r@.len() ==> (#[trigger] r@[j])@ == al[j]);
    r.push(to_chars("any"));
    r.push(to_chars("noarch"));
    r
}

pub fn same_token(a: &Vec<char>, b: &Vec<char>) -> (r: bool)
    ensures
        r == (a@ == b@),
{
    assert(a@.subrange(0, a@.len() as int) == a@);
    range_eq(a, 0, a.len(), b)
}

/// The normalized forms of the tokens `host` accepts.
pub fn accepted_norms(host: &str) -> (r: Vec<Vec<char>>)
    ensures
        r@.len() == accepted_tokens(host@).len(),
        forall|j: int|
            0 <= j < r@.len() ==> (#[trigger] r@[j])@ == norm_token(accepted_tokens(host@)[j]),
{
    let toks = accepted_tokens_of(host);
    let mut out: Vec<Vec<char>> = Vec::new();
    let mut j: usize = 0;
    while j < toks.len()
        invariant
            j <= toks@.len() == accepted_tokens(host@).len(),
            forall|i: int| 0 <= i < toks@.len() ==> (#[trigger] toks@[i])@ == accepted_tokens(host@)[i],
            out@.len() == j,
            forall|i: int|
                0 <= i < j ==> (#[trigger] out@[i])@ == norm_token(accepted_tokens(host@)[i]),
        decreases toks@.len() - j,
    {
        let s = crate::text::from_chars(toks[j].as_slice());
        out.push(normalize_token(s.as_str()));
        j += 1;
    }
    out
}

/// The key-normalized forms of the tokens `host` accepts.
pub fn accepted_key_norms(host: &str) -> (r: Vec<Vec<char>>)
    ensures
        r@.len() == accepted_tokens(host@).len(),
        forall|j: int|
            0 <= j < r@.len() ==> (#[trigger] r@[j])@ == norm_key(accepted_tokens(host@)[j]),
{
    let toks = accepted_tokens_of(host);
    let mut out: Vec<Vec<char>> = Vec::new();
    let mut j: usize = 0;
    while j < toks.len()
        invariant
            j <= toks@.len() == accepted_tokens(host@).len(),
            forall|i: int| 0 <= i < toks@.len() ==> (#[trigger] toks@[i])@ == accepted_tokens(host@)[i],
            out@.len() == j,
            forall|i: int|
                0 <= i < j ==> (#[trigger] out@[i])@ == norm_key(accepted_tokens(host@)[i]),
        decreases toks@.len() - j,
    {
        let t = &toks[j];
        assert(t@.subrange(0, t@.len() as int) == t@);
        out.push(norm_range(t, 0, t.len()));
        j += 1;
    }
    out
}

/// Whether a package declaring `declared` may be installed on `host`.
pub fn supports_arch(declared: &Vec<String>, host: &str) -> (r: bool)
    ensures
        r == arch_supported(views(declared@), host@),
{
    let ghost d = views(declared@);
    if declared.len() == 0 {
        return true;
    }
    let acc = accepted_norms(host);
    let mut i: usize = 0;
    while i < declared.len()
        invariant
            i <= declared@.len(),
            d == views(declared@),
            acc@.len() == accepted_tokens(host@).len(),
            forall|j: int|
                0 <= j < acc@.len() ==> (#[trigger] acc@[j])@ == norm_token(accepted_tokens(host@)[j]),
            forall|a: int, j: int|
                0 <= a < i && 0 <= j < accepted_tokens(host@).len() ==> !token_matches(
                    #[trigger] d[a],
                    #[trigger] accepted_tokens(host@)[j],
                ),
        decreases declared@.len() - i,
    {
        let nd = normalize_token(declared[i].as_str());
        let mut j: usize = 0;
        while j < acc.len()
            invariant
                i < declared@.len(),
                d == views(declared@),
                nd@ == norm_token(d[i as int]),
                j <= acc@.len() == accepted_tokens(host@).len(),
                forall|q: int|
                    0 <= q < acc@.len() ==> (#[trigger] acc@[q])@ == norm_token(
                        accepted_tokens(host@)[q],
                    ),
                forall|q: int|
                    0 <= q < j ==> !token_matches(d[i as int], #[trigger] accepted_tokens(host@)[q]),
            decreases acc@.len() - j,
        {
            if same_token(&nd, &acc[j]) {
                assert(token_matches(d[i as int], accepted_tokens(host@)[j as int]));
                return true;
            }
            j += 1;
        }
        i += 1;
    }
    false
}

} // verus!
