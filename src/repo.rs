//! Source repositories: the configured list (`repos.cfg`), search over it, edits to
//! the user's list, and the decisions of the selection prompt.
use vstd::prelude::*;
use crate::config::{lemma_pair_set_sorted, pair_lines, pair_set, pairs_view, push_pair_lines, sorted_names};
use crate::ini::{entry_view, ini_entries, read_ini, IniEntry};
use crate::text::{
    ascii_lower, contains_str, has_sub, lower_ascii, lower_of, lowercase, push_str, range_eq,
    slice_string, to_chars, trim, trim_bounds, trimmed,
};

verus! {

/// A source repository that a build can start from.
#[derive(Debug, Clone)]
pub struct RepoInfo {
    pub name: String,
    pub owner: String,
    pub clone_url: String,
    /// `GitHub`, `GitLab` or `Custom`.
    pub source: String,
}

pub open spec fn info_view(r: RepoInfo) -> (Seq<char>, Seq<char>, Seq<char>, Seq<char>) {
    (r.name@, r.owner@, r.clone_url@, r.source@)
}

/// The first position at or after `i` where `t` occurs in `s`.
pub open spec fn sub_pos_from(s: Seq<char>, t: Seq<char>, i: int) -> Option<int>
    decreases s.len() + 1 - i,
{
    if i < 0 || i + t.len() > s.len() {
        None
    } else if s.subrange(i, i + t.len()) == t {
        Some(i)
    } else {
        sub_pos_from(s, t, i + 1)
    }
}

/// The text before the first `/` of `s` (all of it when there is none).
pub open spec fn first_segment(s: Seq<char>) -> Seq<char>
    decreases s.len(),
{
    if s.len() == 0 {
        s
    } else if s[0] == '/' {
        Seq::empty()
    } else {
        seq![s[0]] + first_segment(s.drop_first())
    }
}

/// The text after the last `/` of `s` (all of it when there is none).
pub open spec fn last_segment(s: Seq<char>) -> Seq<char>
    decreases s.len(),
{
    if s.len() == 0 {
        s
    } else if s.last() == '/' {
        Seq::empty()
    } else {
        last_segment(s.drop_last()).push(s.last())
    }
}

/// `s` without trailing `.git` suffixes.
pub open spec fn strip_git(s: Seq<char>) -> Seq<char>
    decreases s.len(),
{
    if s.len() >= 4 && s.subrange(s.len() - 4, s.len() as int) == ".git"@ {
        strip_git(s.subrange(0, s.len() - 4))
    } else {
        s
    }
}

/// The owner named in a GitHub or GitLab URL: the first path segment after the host.
pub open spec fn url_owner(url: Seq<char>) -> Seq<char> {
    match sub_pos_from(url, "github.com/"@, 0) {
        Some(i) => first_segment(url.subrange(i + 11, url.len() as int)),
        None => match sub_pos_from(url, "gitlab.com/"@, 0) {
            Some(i) => first_segment(url.subrange(i + 11, url.len() as int)),
            None => Seq::empty(),
        },
    }
}

/// The repository that an entry `name = url` of the list describes; `lower` is the URL
/// in lower case.
pub open spec fn repo_info_spec(name: Seq<char>, url: Seq<char>, lower: Seq<char>) -> (
    Seq<char>,
    Seq<char>,
    Seq<char>,
    Seq<char>,
) {
    let owner = url_owner(url);
    let source = if has_sub(lower, "github.com"@) {
        "GitHub"@
    } else if has_sub(lower, "gitlab.com"@) {
        "GitLab"@
    } else {
        "Custom"@
    };
    let display = if owner.len() > 0 {
        owner + "/"@ + strip_git(last_segment(url))
    } else {
        name
    };
    (display, owner, url, source)
}

fn sub_pos(s: &Vec<char>, t: &Vec<char>) -> (r: Option<usize>)
    ensures
        match r {
            Some(i) => sub_pos_from(s@, t@, 0) == Some(i as int) && i + t@.len() <= s@.len(),
            None => sub_pos_from(s@, t@, 0) is None,
        },
{
    if t.len() > s.len() {
        return None;
    }
    let n = s.len();
    let last = n - t.len();
    let mut i: usize = 0;
    loop
        invariant
            n == s@.len(),
            t@.len() <= s@.len(),
            last == s@.len() - t@.len(),
            i <= last,
            sub_pos_from(s@, t@, 0) == sub_pos_from(s@, t@, i as int),
        decreases last - i,
    {
        if range_eq(s, i, i + t.len(), t) {
            return Some(i);
        }
        if i == last {
            assert(sub_pos_from(s@, t@, i + 1) is None);
            return None;
        }
        i += 1;
    }
}

fn first_segment_of(v: &Vec<char>, from: usize) -> (r: String)
    requires
        from <= v@.len(),
    ensures
        r@ == first_segment(v@.subrange(from as int, v@.len() as int)),
{
    let mut e = from;
    while e < v.len() && v[e] != '/'
        invariant
            from <= e <= v@.len(),
            forall|j: int| from <= j < e ==> v@[j] != '/',
        decreases v@.len() - e,
    {
        e += 1;
    }
    proof {
        lemma_first_segment(v@, from as int, e as int);
    }
    slice_string(v, from, e)
}

proof fn lemma_first_segment(v: Seq<char>, a: int, e: int)
    requires
        0 <= a <= e <= v.len(),
        forall|j: int| a <= j < e ==> v[j] != '/',
        e == v.len() || v[e] == '/',
    ensures
        first_segment(v.subrange(a, v.len() as int)) == v.subrange(a, e),
    decreases e - a,
{
    let s = v.subrange(a, v.len() as int);
    if a < e {
        lemma_first_segment(v, a + 1, e);
        assert(s.drop_first() == v.subrange(a + 1, v.len() as int));
        assert(v.subrange(a, e) == seq![v[a]] + v.subrange(a + 1, e));
    } else {
        assert(s.len() == 0 || s[0] == '/');
        assert(v.subrange(a, e) == Seq::<char>::empty());
    }
}

fn last_segment_of(v: &Vec<char>) -> (r: (usize, usize))
    ensures
        r.0 <= r.1 == v@.len(),
        v@.subrange(r.0 as int, r.1 as int) == last_segment(v@),
{
    let n = v.len();
    let mut b = n;
    assert(v@.subrange(0, n as int) == v@);
    assert(v@.subrange(n as int, n as int) == Seq::<char>::empty());
    assert(last_segment(v@) + Seq::<char>::empty() == last_segment(v@));
    while b > 0 && v[b - 1] != '/'
        invariant
            b <= n == v@.len(),
            last_segment(v@) == last_segment(v@.subrange(0, b as int)) + v@.subrange(b as int, n as int),
        decreases b,
    {
        let ghost p = v@.subrange(0, b as int);
        assert(p.drop_last() == v@.subrange(0, b - 1));
        assert(v@.subrange(b - 1, n as int) == seq![v@[b - 1]] + v@.subrange(b as int, n as int));
        assert(last_segment(p) == last_segment(p.drop_last()).push(p.last()));
        assert(last_segment(p.drop_last()).push(p.last()) + v@.subrange(b as int, n as int)
            =~= last_segment(p.drop_last()) + v@.subrange(b - 1, n as int));
        b -= 1;
    }
    assert(v@.subrange(0, n as int) == v@);
    assert(last_segment(v@.subrange(0, b as int)) == Seq::<char>::empty());
    assert(Seq::<char>::empty() + v@.subrange(b as int, n as int) == v@.subrange(b as int, n as int));
    (b, n)
}

fn strip_git_of(v: &Vec<char>, a: usize, b: usize) -> (r: usize)
    requires
        a <= b <= v@.len(),
    ensures
        a <= r <= b,
        v@.subrange(a as int, r as int) == strip_git(v@.subrange(a as int, b as int)),
{
    let git = to_chars(".git");
    let mut e = b;
    while e - a >= 4 && range_eq(v, e - 4, e, &git)
        invariant
            a <= e <= b <= v@.len(),
            git@ == ".git"@,
            strip_git(v@.subrange(a as int, b as int)) == strip_git(v@.subrange(a as int, e as int)),
        decreases e - a,
    {
        let ghost s = v@.subrange(a as int, e as int);
        assert(s.subrange(s.len() - 4, s.len() as int) == v@.subrange(e - 4, e as int));
        assert(s.subrange(0, s.len() - 4) == v@.subrange(a as int, e - 4));
        e -= 4;
    }
    let ghost s = v@.subrange(a as int, e as int);
    assert(s.len() >= 4 ==> s.subrange(s.len() - 4, s.len() as int) == v@.subrange(e - 4, e as int));
    e
}

/// The repository described by the list entry `name = url`, given the URL in lower case.
pub fn repo_info_from_entry(name: &str, url: &str, url_lower: &str) -> (r: RepoInfo)
    ensures
        info_view(r) == repo_info_spec(name@, url@, url_lower@),
{
    let v = to_chars(url);
    let gh = to_chars("github.com/");
    let gl = to_chars("gitlab.com/");
    proof {
        reveal_strlit("github.com/");
        reveal_strlit("gitlab.com/");
    }
    assert(gh@.len() == 11 && gl@.len() == 11);
    let vlen = v.len();
    assert(vlen == v@.len());
    let owner = match sub_pos(&v, &gh) {
        Some(i) => first_segment_of(&v, i + gh.len()),
        None => match sub_pos(&v, &gl) {
            Some(i) => first_segment_of(&v, i + gl.len()),
            None => String::new(),
        },
    };
    let source = if contains_str(url_lower, "github.com") {
        String::from_str("GitHub")
    } else if contains_str(url_lower, "gitlab.com") {
        String::from_str("GitLab")
    } else {
        String::from_str("Custom")
    };
    let display = if owner.as_str().is_empty() {
        String::from_str(name)
    } else {
        let (a, b) = last_segment_of(&v);
        let e = strip_git_of(&v, a, b);
        let mut d = owner.clone();
        push_str(&mut d, "/");
        let tail = slice_string(&v, a, e);
        push_str(&mut d, tail.as_str());
        d
    };
    RepoInfo { name: display, owner, clone_url: String::from_str(url), source }
}

/// The repositories listed under `[repos]` (any letter case) in a list file's text.
pub open spec fn listed_repos(es: Seq<(Seq<char>, Seq<char>, Seq<char>)>) -> Seq<
    (Seq<char>, Seq<char>, Seq<char>, Seq<char>),
>
    decreases es.len(),
{
    if es.len() == 0 {
        Seq::empty()
    } else {
        let r = listed_repos(es.drop_last());
        let e = es.last();
        if lower_ascii(e.0) == "repos"@ {
            r.push(repo_info_spec(e.1, e.2, lower_of(e.2)))
        } else {
            r
        }
    }
}

/// Reads the repositories of a list file's text.
pub fn parse_repo_cfg(content: &str) -> (r: Vec<RepoInfo>)
    ensures
        r@.map_values(|x: RepoInfo| info_view(x)) == listed_repos(ini_entries(content@)),
{
    let es = read_ini(content);
    let ghost ev = es@.map_values(|e: IniEntry| entry_view(e));
    let repos = String::from_str("repos");
    let mut out: Vec<RepoInfo> = Vec::new();
    let mut i: usize = 0;
    while i < es.len()
        invariant
            i <= es@.len(),
            repos@ == "repos"@,
            ev == es@.map_values(|e: IniEntry| entry_view(e)),
            out@.map_values(|x: RepoInfo| info_view(x)) == listed_repos(ev.take(i as int)),
        decreases es@.len() - i,
    {
        assert(ev.take(i + 1).drop_last() == ev.take(i as int));
        assert(ev.take(i + 1).last() == entry_view(es@[i as int]));
        if ascii_lower(es[i].section.as_str()) == repos {
            let lower = lowercase(es[i].value.as_str());
            let info = repo_info_from_entry(es[i].key.as_str(), es[i].value.as_str(), lower.as_str());
            let ghost before = out@;
            out.push(info);
            assert(out@.drop_last() == before);
            assert(out@.map_values(|x: RepoInfo| info_view(x)) =~= before.map_values(
                |x: RepoInfo| info_view(x),
            ).push(info_view(info)));
        }
        i += 1;
    }
    assert(ev.take(i as int) == ev);
    out
}

/// A repository matches a search term when its name or URL holds the term, all in
/// lower case.
pub open spec fn matches_lowered(name_lower: Seq<char>, url_lower: Seq<char>, term_lower: Seq<char>) -> bool {
    has_sub(name_lower, term_lower) || has_sub(url_lower, term_lower)
}

pub fn matches_term(name_lower: &str, url_lower: &str, term_lower: &str) -> (r: bool)
    ensures
        r == matches_lowered(name_lower@, url_lower@, term_lower@),
{
    contains_str(name_lower, term_lower) || contains_str(url_lower, term_lower)
}

pub open spec fn search_spec(repos: Seq<RepoInfo>, term: Seq<char>) -> Seq<RepoInfo>
    decreases repos.len(),
{
    if repos.len() == 0 {
        Seq::empty()
    } else {
        let r = search_spec(repos.drop_last(), term);
        let x = repos.last();
        if matches_lowered(lower_of(x.name@), lower_of(x.clone_url@), lower_of(term)) {
            r.push(x)
        } else {
            r
        }
    }
}

/// The configured repositories that match `term`, ignoring case, in order.
pub fn search_config_repos(repos: &Vec<RepoInfo>, term: &str) -> (r: Vec<RepoInfo>)
    ensures
        r@.map_values(|x: RepoInfo| info_view(x)) == search_spec(repos@, term@).map_values(
            |x: RepoInfo| info_view(x),
        ),
{
    let t = lowercase(term);
    let mut out: Vec<RepoInfo> = Vec::new();
    let mut i: usize = 0;
    while i < repos.len()
        invariant
            i <= repos@.len(),
            t@ == lower_of(term@),
            out@.map_values(|x: RepoInfo| info_view(x)) == search_spec(repos@.take(i as int), term@).map_values(
                |x: RepoInfo| info_view(x),
            ),
        decreases repos@.len() - i,
    {
        assert(repos@.take(i + 1).drop_last() == repos@.take(i as int));
        assert(repos@.take(i + 1).last() == repos@[i as int]);
        let x = &repos[i];
        let nl = lowercase(x.name.as_str());
        let ul = lowercase(x.clone_url.as_str());
        if matches_term(nl.as_str(), ul.as_str(), t.as_str()) {
            let c = RepoInfo {
                name: x.name.clone(),
                owner: x.owner.clone(),
                clone_url: x.clone_url.clone(),
                source: x.source.clone(),
            };
            let ghost before = out@;
            out.push(c);
            assert(out@.drop_last() == before);
            assert(out@.map_values(|x: RepoInfo| info_view(x)) =~= before.map_values(
                |x: RepoInfo| info_view(x),
            ).push(info_view(c)));
            assert(search_spec(repos@.take(i + 1), term@) == search_spec(repos@.take(i as int), term@).push(repos@[i as int]));
            assert(search_spec(repos@.take(i + 1), term@).map_values(|x: RepoInfo| info_view(x)) =~= search_spec(repos@.take(i as int), term@).map_values(|x: RepoInfo| info_view(x)).push(info_view(repos@[i as int])));
        }
        i += 1;
    }
    assert(repos@.take(i as int) == repos@);
    out
}

/// The entries under `[repos]` (exactly) of the user's list, with `skip` left out.
pub open spec fn user_list(es: Seq<(Seq<char>, Seq<char>, Seq<char>)>, skip: Option<Seq<char>>) -> Seq<
    (Seq<char>, Seq<char>),
>
    decreases es.len(),
{
    if es.len() == 0 {
        Seq::empty()
    } else {
        let r = user_list(es.drop_last(), skip);
        let e = es.last();
        if e.0 == "repos"@ && skip != Some(e.1) {
            pair_set(r, e.1, e.2)
        } else {
            r
        }
    }
}

/// The user's list is kept sorted by name, so it never names a repository twice.
pub proof fn lemma_user_list_sorted(es: Seq<(Seq<char>, Seq<char>, Seq<char>)>, skip: Option<Seq<char>>)
    ensures
        sorted_names(user_list(es, skip)),
    decreases es.len(),
{
    if es.len() > 0 {
        lemma_user_list_sorted(es.drop_last(), skip);
        let e = es.last();
        if e.0 == "repos"@ && skip != Some(e.1) {
            lemma_pair_set_sorted(user_list(es.drop_last(), skip), e.1, e.2);
        }
    }
}

pub open spec fn list_text(m: Seq<(Seq<char>, Seq<char>)>) -> Seq<char> {
    "[repos]\n"@ + pair_lines(m)
}

fn user_entries(text: Option<&str>, skip: Option<&str>) -> (r: Vec<(String, String)>)
    ensures
        pairs_view(r@) == user_list(
            match text {
                Some(t) => ini_entries(t@),
                None => Seq::empty(),
            },
            crate::text::opt_view(skip),
        ),
{
    let mut m: Vec<(String, String)> = Vec::new();
    assert(pairs_view(m@) =~= Seq::<(Seq<char>, Seq<char>)>::empty());
    if let Some(t) = text {
        let es = read_ini(t);
        let ghost ev = es@.map_values(|e: IniEntry| entry_view(e));
        let repos = String::from_str("repos");
        let mut i: usize = 0;
        while i < es.len()
            invariant
                i <= es@.len(),
                repos@ == "repos"@,
                ev == es@.map_values(|e: IniEntry| entry_view(e)),
                pairs_view(m@) == user_list(ev.take(i as int), crate::text::opt_view(skip)),
            decreases es@.len() - i,
        {
            assert(ev.take(i + 1).drop_last() == ev.take(i as int));
            assert(ev.take(i + 1).last() == entry_view(es@[i as int]));
            let skipped = match skip {
                Some(s) => es[i].key == String::from_str(s),
                None => false,
            };
            if es[i].section == repos && !skipped {
                crate::config::set_pair_pub(&mut m, es[i].key.clone(), es[i].value.clone());
            }
            i += 1;
        }
        assert(ev.take(i as int) == ev);
    }
    m
}

/// The user's new list after adding (or updating) `name = url`, given its current text.
pub fn add_repo_entry(current: Option<&str>, name: &str, url: &str) -> (r: String)
    ensures
        r@ == list_text(
            pair_set(
                user_list(
                    match current {
                        Some(t) => ini_entries(t@),
                        None => Seq::empty(),
                    },
                    None,
                ),
                trim(name@),
                trim(url@),
            ),
        ),
{
    let mut m = user_entries(current, None);
    crate::config::set_pair_pub(&mut m, trimmed(name), trimmed(url));
    let mut s = String::from_str("[repos]\n");
    push_pair_lines(&mut s, &m);
    s
}

/// The user's new list without `name`, given its current text.
pub fn remove_repo_entry(current: Option<&str>, name: &str) -> (r: String)
    ensures
        r@ == list_text(
            user_list(
                match current {
                    Some(t) => ini_entries(t@),
                    None => Seq::empty(),
                },
                Some(name@),
            ),
        ),
{
    let m = user_entries(current, Some(name));
    let mut s = String::from_str("[repos]\n");
    push_pair_lines(&mut s, &m);
    s
}

/// What the selection does with `count` matches.
#[derive(Debug, Clone, Copy, PartialEq, Eq, Structural)]
pub enum Selection {
    /// Nothing matched: an error.
    NoMatch,
    /// Exactly one matched: taken without asking.
    Only,
    /// Ask, offering the first `shown` matches.
    Prompt(usize),
}

/// The selection for `count` matches, offering at most `cap` of them when given.
pub fn selection_for(count: usize, cap: Option<usize>) -> (r: Selection)
    ensures
        count == 0 ==> r == Selection::NoMatch,
        count == 1 ==> r == Selection::Only,
        count > 1 ==> r == Selection::Prompt(
            match cap {
                Some(c) => if c < count { c } else { count },
                None => count,
            },
        ),
{
    if count == 0 {
        Selection::NoMatch
    } else if count == 1 {
        Selection::Only
    } else {
        match cap {
            Some(c) => Selection::Prompt(if c < count { c } else { count }),
            None => Selection::Prompt(count),
        }
    }
}

/// The value of a string of decimal digits.
pub open spec fn digits_value(s: Seq<char>) -> int
    decreases s.len(),
{
    if s.len() == 0 {
        0
    } else {
        digits_value(s.drop_last()) * 10 + (s.last() as int - 48)
    }
}

pub open spec fn all_digits(s: Seq<char>) -> bool {
    forall|i: int| 0 <= i < s.len() ==> '0' <= #[trigger] s[i] <= '9'
}

/// A typed answer as a number: decimal digits after an optional `+`, around which
/// white space is ignored.
pub open spec fn answer_number(input: Seq<char>) -> Option<int> {
    let t = trim(input);
    let d = if t.len() > 0 && t[0] == '+' { t.drop_first() } else { t };
    if d.len() > 0 && all_digits(d) {
        Some(digits_value(d))
    } else {
        None
    }
}

proof fn lemma_digits_monotone(s: Seq<char>, k: int)
    requires
        all_digits(s),
        0 <= k <= s.len(),
    ensures
        digits_value(s.subrange(0, k)) <= digits_value(s),
        digits_value(s) >= 0,
    decreases s.len(),
{
    if s.len() > 0 {
        assert(all_digits(s.drop_last()));
        if k < s.len() {
            lemma_digits_monotone(s.drop_last(), k);
            assert(s.drop_last().subrange(0, k) == s.subrange(0, k));
        } else {
            lemma_digits_monotone(s.drop_last(), k - 1);
            assert(s.subrange(0, k) == s);
        }
        assert('0' <= s.last() <= '9');
    }
}

/// The index (from 0) of the answer `input` among `shown` offered choices numbered from 1.
pub fn parse_choice(input: &str, shown: usize) -> (r: Option<usize>)
    ensures
        match answer_number(input@) {
            Some(n) => if 1 <= n <= shown {
                r == Some((n - 1) as usize)
            } else {
                r is None
            },
            None => r is None,
        },
{
    let v = to_chars(input);
    let (a0, b) = trim_bounds(&v, 0, v.len());
    assert(v@.subrange(0, v@.len() as int) == input@);
    let ghost t = v@.subrange(a0 as int, b as int);
    let a = if a0 < b && v[a0] == '+' { a0 + 1 } else { a0 };
    let ghost d = v@.subrange(a as int, b as int);
    assert(t.len() > 0 && t[0] == '+' ==> d == t.drop_first());
    assert(!(t.len() > 0 && t[0] == '+') ==> d == t);
    let ghost answer = if d.len() > 0 && all_digits(d) {
        Some(digits_value(d))
    } else {
        None::<int>
    };
    assert(answer_number(input@) == answer);
    if a == b {
        return None;
    }
    let mut value: usize = 0;
    let mut i = a;
    while i < b
        invariant
            a < b <= v@.len(),
            a <= i <= b,
            d == v@.subrange(a as int, b as int),
            answer_number(input@) == answer,
            answer == if d.len() > 0 && all_digits(d) {
                Some(digits_value(d))
            } else {
                None::<int>
            },
            forall|j: int| a <= j < i ==> '0' <= #[trigger] v@[j] <= '9',
            value as int == digits_value(v@.subrange(a as int, i as int)),
            value <= shown,
        decreases b - i,
    {
        let c = v[i];
        if c < '0' || c > '9' {
            assert(d[i - a] == v@[i as int]);
            assert(!all_digits(d));
            return None;
        }
        assert(v@.subrange(a as int, i + 1).drop_last() == v@.subrange(a as int, i as int));
        let digit = (c as u32 - '0' as u32) as usize;
        assert(digits_value(v@.subrange(a as int, i + 1)) == value * 10 + digit);
        let over = if value > shown / 10 {
            assert(value * 10 + digit > shown) by (nonlinear_arith)
                requires
                    value > shown / 10,
            ;
            true
        } else {
            assert(value * 10 <= shown) by (nonlinear_arith)
                requires
                    value <= shown / 10,
            ;
            digit > shown - value * 10
        };
        if over {
            let mut j = i + 1;
            while j < b
                invariant
                    a <= i < j <= b <= v@.len(),
                    d == v@.subrange(a as int, b as int),
                    answer_number(input@) == answer,
                    answer == if d.len() > 0 && all_digits(d) {
                        Some(digits_value(d))
                    } else {
                        None::<int>
                    },
                    digits_value(v@.subrange(a as int, i + 1)) > shown,
                    forall|q: int| a <= q < j ==> '0' <= #[trigger] v@[q] <= '9',
                decreases b - j,
            {
                if v[j] < '0' || v[j] > '9' {
                    assert(d[j - a] == v@[j as int]);
                    assert(!all_digits(d));
                    return None;
                }
                j += 1;
            }
            proof {
                assert forall|q: int| 0 <= q < d.len() implies '0' <= #[trigger] d[q] <= '9' by {
                    assert(d[q] == v@[a + q]);
                }
                lemma_digits_monotone(d, i + 1 - a);
                assert(d.subrange(0, i + 1 - a) == v@.subrange(a as int, i + 1));
            }
            return None;
        }
        value = value * 10 + digit;
        i += 1;
    }
    assert forall|q: int| 0 <= q < d.len() implies '0' <= #[trigger] d[q] <= '9' by {
        assert(d[q] == v@[a + q]);
    }
    assert(all_digits(d));
    assert(v@.subrange(a as int, i as int) == d);
    if value >= 1 {
        Some(value - 1)
    } else {
        None
    }
}

} // verus!
