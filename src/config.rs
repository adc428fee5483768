//! Effective settings: built-in defaults, then the system file, then the user file,
//! then the environment; and the named binary-repository remotes.
use vstd::prelude::*;
use crate::ini::{entry_view, ini_entries, read_ini, IniEntry};
use crate::text::{
    lemma_lex_irreflexive, lemma_lex_total, lemma_lex_trans, lex_less, lex_lt, ascii_lower, lower_ascii, lower_of, lowercase, opt_view, push_str, trim, trimmed};

verus! {

#[derive(Debug, Clone)]
pub struct AppConfig {
    pub repo_url: String,
    pub db_path: String,
    pub cache_dir: String,
    pub require_signed_index: bool,
    pub pubkey_path: String,
    /// Remote name and URL, one pair per name, sorted by name.
    pub repo_remotes: Vec<(String, String)>,
    pub active_repo: Option<String>,
}

/// Settings taken from the environment, each when it is set.
pub struct EnvSettings {
    pub repo_url: Option<String>,
    pub db_path: Option<String>,
    pub cache_dir: Option<String>,
    pub require_signed_index: Option<String>,
    pub pubkey_path: Option<String>,
}

#[derive(Debug, Clone, Copy, PartialEq, Eq, Structural)]
pub enum ConfigError {
    /// No remote of that name is configured.
    UnknownRemote,
}

pub ghost struct ConfigView {
    pub repo_url: Seq<char>,
    pub db_path: Seq<char>,
    pub cache_dir: Seq<char>,
    pub require_signed_index: bool,
    pub pubkey_path: Seq<char>,
    pub remotes: Seq<(Seq<char>, Seq<char>)>,
    pub active: Option<Seq<char>>,
}

pub open spec fn pairs_view(v: Seq<(String, String)>) -> Seq<(Seq<char>, Seq<char>)> {
    v.map_values(|p: (String, String)| (p.0@, p.1@))
}

impl View for AppConfig {
    type V = ConfigView;

    open spec fn view(&self) -> ConfigView {
        ConfigView {
            repo_url: self.repo_url@,
            db_path: self.db_path@,
            cache_dir: self.cache_dir@,
            require_signed_index: self.require_signed_index,
            pubkey_path: self.pubkey_path@,
            remotes: pairs_view(self.repo_remotes@),
            active: opt_string_view(self.active_repo),
        }
    }
}

pub open spec fn opt_string_view(o: Option<String>) -> Option<Seq<char>> {
    match o {
        Some(s) => Some(s@),
        None => None,
    }
}

pub open spec fn default_view() -> ConfigView {
    ConfigView {
        repo_url: Seq::empty(),
        db_path: "/var/lib/nxpkg/nxpkg_meta.db"@,
        cache_dir: "/var/cache/nxpkg"@,
        require_signed_index: true,
        pubkey_path: "/etc/nxpkg/nxpkg.pub"@,
        remotes: Seq::empty(),
        active: None,
    }
}

/// The first position of `k` among the names.
pub open spec fn pair_pos(m: Seq<(Seq<char>, Seq<char>)>, k: Seq<char>) -> Option<int>
    decreases m.len(),
{
    if m.len() == 0 {
        None
    } else {
        let r = pair_pos(m.drop_last(), k);
        if r is Some {
            r
        } else if m.last().0 == k {
            Some(m.len() - 1)
        } else {
            None
        }
    }
}

/// Where a new name goes: before the first name, from position `i` on, that sorts
/// after it.
pub open spec fn ins_from(m: Seq<(Seq<char>, Seq<char>)>, k: Seq<char>, i: int) -> int
    decreases m.len() - i,
{
    if i < 0 || i >= m.len() {
        m.len() as int
    } else if lex_lt(k, m[i].0) {
        i
    } else {
        ins_from(m, k, i + 1)
    }
}

/// `k` mapped to `v`: in place when `k` is there, else inserted where its name sorts.
pub open spec fn pair_set(m: Seq<(Seq<char>, Seq<char>)>, k: Seq<char>, v: Seq<char>) -> Seq<
    (Seq<char>, Seq<char>),
> {
    match pair_pos(m, k) {
        Some(i) => m.update(i, (k, v)),
        None => m.insert(ins_from(m, k, 0), (k, v)),
    }
}

/// `m` without `k`.
pub open spec fn pair_drop(m: Seq<(Seq<char>, Seq<char>)>, k: Seq<char>) -> Seq<
    (Seq<char>, Seq<char>),
>
    decreases m.len(),
{
    if m.len() == 0 {
        Seq::empty()
    } else {
        let r = pair_drop(m.drop_last(), k);
        if m.last().0 == k {
            r
        } else {
            r.push(m.last())
        }
    }
}

pub proof fn lemma_pair_pos(m: Seq<(Seq<char>, Seq<char>)>, k: Seq<char>)
    ensures
        pair_pos(m, k) matches Some(i) ==> 0 <= i < m.len() && m[i].0 == k && forall|j: int|
            0 <= j < i ==> m[j].0 != k,
        pair_pos(m, k) is None ==> forall|j: int| 0 <= j < m.len() ==> m[j].0 != k,
    decreases m.len(),
{
    if m.len() > 0 {
        lemma_pair_pos(m.drop_last(), k);
        assert forall|j: int| 0 <= j < m.len() - 1 implies m.drop_last()[j] == m[j] by {}
    }
}

/// No two remotes share a name.
pub open spec fn unique_names(m: Seq<(Seq<char>, Seq<char>)>) -> bool {
    forall|i: int, j: int| 0 <= i < j < m.len() ==> m[i].0 != m[j].0
}

/// The names are in strictly increasing order (the order of a sorted map).
pub open spec fn sorted_names(m: Seq<(Seq<char>, Seq<char>)>) -> bool {
    forall|i: int, j: int| 0 <= i < j < m.len() ==> lex_lt(m[i].0, m[j].0)
}

pub proof fn lemma_sorted_unique(m: Seq<(Seq<char>, Seq<char>)>)
    requires
        sorted_names(m),
    ensures
        unique_names(m),
{
    assert forall|i: int, j: int| 0 <= i < j < m.len() implies m[i].0 != m[j].0 by {
        lemma_lex_irreflexive(m[i].0);
    }
}

proof fn lemma_ins_from(m: Seq<(Seq<char>, Seq<char>)>, k: Seq<char>, i: int)
    requires
        0 <= i <= m.len(),
    ensures
        i <= ins_from(m, k, i) <= m.len(),
        forall|t: int| i <= t < ins_from(m, k, i) ==> !lex_lt(k, m[t].0),
        ins_from(m, k, i) < m.len() ==> lex_lt(k, m[ins_from(m, k, i)].0),
    decreases m.len() - i,
{
    if i < m.len() && !lex_lt(k, m[i].0) {
        lemma_ins_from(m, k, i + 1);
    }
}

/// `pair_set` keeps the names sorted.
pub proof fn lemma_pair_set_sorted(m: Seq<(Seq<char>, Seq<char>)>, k: Seq<char>, v: Seq<char>)
    requires
        sorted_names(m),
    ensures
        sorted_names(pair_set(m, k, v)),
{
    lemma_pair_pos(m, k);
    let r = pair_set(m, k, v);
    match pair_pos(m, k) {
        Some(p) => {
            assert forall|i: int, j: int| 0 <= i < j < r.len() implies lex_lt(r[i].0, r[j].0) by {
                assert(r[i].0 == m[i].0 && r[j].0 == m[j].0);
            }
        },
        None => {
            let q = ins_from(m, k, 0);
            lemma_ins_from(m, k, 0);
            m.insert_ensures(q, (k, v));
            assert forall|t: int| 0 <= t < q implies lex_lt(m[t].0, k) by {
                lemma_lex_total(m[t].0, k);
            }
            assert forall|t: int| q <= t < m.len() implies lex_lt(k, m[t].0) by {
                if t > q {
                    lemma_lex_trans(k, m[q].0, m[t].0);
                }
            }
            assert forall|i: int, j: int| 0 <= i < j < r.len() implies lex_lt(r[i].0, r[j].0) by {
                if j < q {
                    assert(r[i] == m[i] && r[j] == m[j]);
                } else if j == q {
                    assert(r[i] == m[i]);
                } else if i < q {
                    assert(r[i] == m[i] && r[j] == m[j - 1]);
                } else if i == q {
                    assert(r[j] == m[j - 1]);
                } else {
                    assert(r[i] == m[i - 1] && r[j] == m[j - 1]);
                }
            }
        },
    }
}

/// Remote files keep remote names sorted.
pub proof fn lemma_remotes_applied_sorted(c: ConfigView, es: Seq<(Seq<char>, Seq<char>, Seq<char>)>)
    requires
        sorted_names(c.remotes),
    ensures
        sorted_names(remotes_applied(c, es).remotes),
    decreases es.len(),
{
    if es.len() > 0 {
        lemma_remotes_applied_sorted(c, es.drop_last());
        let prev = remotes_applied(c, es.drop_last());
        let e = es.last();
        if lower_of(trim(e.0)) == "repo_remotes"@ {
            lemma_pair_set_sorted(prev.remotes, e.1, e.2);
        }
    }
}

/// Configuration files leave the remotes alone.
pub proof fn lemma_settings_keep_remotes(c: ConfigView, es: Seq<(Seq<char>, Seq<char>, Seq<char>)>)
    ensures
        settings_applied(c, es).remotes == c.remotes,
    decreases es.len(),
{
    if es.len() > 0 {
        lemma_settings_keep_remotes(c, es.drop_last());
    }
}

/// A `true`-like setting value in a configuration file.
pub open spec fn truthy(v: Seq<char>) -> bool {
    lower_ascii(v) == "1"@ || lower_ascii(v) == "true"@ || lower_ascii(v) == "yes"@
}

/// The effect of one setting of a configuration file; `section` is already lower case.
pub open spec fn setting_applied(c: ConfigView, section: Seq<char>, key: Seq<char>, value: Seq<char>) -> ConfigView {
    if section == "repo"@ && key == "url"@ {
        ConfigView { repo_url: value, ..c }
    } else if section == "storage"@ && key == "db_path"@ {
        ConfigView { db_path: value, ..c }
    } else if section == "storage"@ && key == "cache_dir"@ {
        ConfigView { cache_dir: value, ..c }
    } else if section == "security"@ && key == "require_signed_index"@ {
        ConfigView { require_signed_index: truthy(value), ..c }
    } else if section == "security"@ && key == "pubkey_path"@ {
        ConfigView { pubkey_path: value, ..c }
    } else {
        c
    }
}

/// The effect of one entry of a remotes file; `section` is already lower case.
pub open spec fn remote_applied(c: ConfigView, section: Seq<char>, key: Seq<char>, value: Seq<char>) -> ConfigView {
    if section == "repo_remotes"@ {
        ConfigView { remotes: pair_set(c.remotes, key, value), ..c }
    } else if section == "active"@ && (lower_ascii(key) == "name"@ || lower_ascii(key) == "active"@) {
        ConfigView { active: Some(value), ..c }
    } else {
        c
    }
}

/// A configuration file's entries applied in order.
pub open spec fn settings_applied(c: ConfigView, es: Seq<(Seq<char>, Seq<char>, Seq<char>)>) -> ConfigView
    decreases es.len(),
{
    if es.len() == 0 {
        c
    } else {
        let e = es.last();
        setting_applied(settings_applied(c, es.drop_last()), lower_of(trim(e.0)), e.1, e.2)
    }
}

/// A remotes file's entries applied in order.
pub open spec fn remotes_applied(c: ConfigView, es: Seq<(Seq<char>, Seq<char>, Seq<char>)>) -> ConfigView
    decreases es.len(),
{
    if es.len() == 0 {
        c
    } else {
        let e = es.last();
        remote_applied(remotes_applied(c, es.drop_last()), lower_of(trim(e.0)), e.1, e.2)
    }
}

/// The active remote, when it is configured, decides the repository URL.
pub open spec fn active_applied(c: ConfigView) -> ConfigView {
    match c.active {
        Some(a) => match pair_pos(c.remotes, a) {
            Some(i) => ConfigView { repo_url: c.remotes[i].1, ..c },
            None => c,
        },
        None => c,
    }
}

/// Environment settings override everything before them.
pub open spec fn env_applied(c: ConfigView, url: Option<Seq<char>>, db: Option<Seq<char>>, cache: Option<Seq<char>>, require: Option<Seq<char>>, pubkey: Option<Seq<char>>) -> ConfigView {
    ConfigView {
        repo_url: if url is Some { url->0 } else { c.repo_url },
        db_path: if db is Some { db->0 } else { c.db_path },
        cache_dir: if cache is Some { cache->0 } else { c.cache_dir },
        require_signed_index: if require is Some {
            require->0 == "1"@ || lower_ascii(require->0) == "true"@
        } else {
            c.require_signed_index
        },
        pubkey_path: if pubkey is Some { pubkey->0 } else { c.pubkey_path },
        ..c
    }
}

/// With no repository URL yet, the active remote, or else the only remote, gives it.
pub open spec fn fallback_applied(c: ConfigView) -> ConfigView {
    if trim(c.repo_url).len() > 0 {
        c
    } else {
        let cand = if c.active is Some {
            c.active
        } else if c.remotes.len() == 1 {
            Some(c.remotes[0].0)
        } else {
            None
        };
        match cand {
            Some(n) => match pair_pos(c.remotes, n) {
                Some(i) => ConfigView { repo_url: c.remotes[i].1, ..c },
                None => c,
            },
            None => c,
        }
    }
}

pub open spec fn text_entries(t: Option<Seq<char>>) -> Seq<(Seq<char>, Seq<char>, Seq<char>)> {
    match t {
        Some(s) => ini_entries(s),
        None => Seq::empty(),
    }
}

/// The remotes file text: `[repo_remotes]` with one `name = url` line per remote, then
/// `[active]` with `name = <active>` when one is active.
pub open spec fn remotes_text(m: Seq<(Seq<char>, Seq<char>)>, active: Option<Seq<char>>) -> Seq<char> {
    "[repo_remotes]\n"@ + pair_lines(m) + match active {
        Some(a) => "\n[active]\nname = "@ + a + "\n"@,
        None => Seq::empty(),
    }
}

pub open spec fn pair_lines(m: Seq<(Seq<char>, Seq<char>)>) -> Seq<char>
    decreases m.len(),
{
    if m.len() == 0 {
        Seq::empty()
    } else {
        pair_lines(m.drop_last()) + m.last().0 + " = "@ + m.last().1 + "\n"@
    }
}

/// The lines `name = url` of `m`, appended to `s`.
pub fn push_pair_lines(s: &mut String, m: &Vec<(String, String)>)
    ensures
        final(s)@ == old(s)@ + pair_lines(pairs_view(m@)),
{
    let ghost start = s@;
    let ghost pv = pairs_view(m@);
    let mut i: usize = 0;
    while i < m.len()
        invariant
            i <= m@.len(),
            pv == pairs_view(m@),
            s@ == start + pair_lines(pv.take(i as int)),
        decreases m@.len() - i,
    {
        assert(pv.take(i + 1).drop_last() == pv.take(i as int));
        assert(pv.take(i + 1).last() == (m@[i as int].0@, m@[i as int].1@));
        push_str(s, m[i].0.as_str());
        push_str(s, " = ");
        push_str(s, m[i].1.as_str());
        push_str(s, "\n");
        assert(s@ =~= start + pair_lines(pv.take(i + 1)));
        i += 1;
    }
    assert(pv.take(i as int) == pv);
}

/// The text of a remotes file.
pub fn render_remotes(m: &Vec<(String, String)>, active: Option<&str>) -> (r: String)
    ensures
        r@ == remotes_text(pairs_view(m@), opt_view(active)),
{
    let mut s = String::from_str("[repo_remotes]\n");
    push_pair_lines(&mut s, m);
    if let Some(a) = active {
        let ghost before = s@;
        push_str(&mut s, "\n[active]\nname = ");
        push_str(&mut s, a);
        push_str(&mut s, "\n");
        assert(s@ =~= before + ("\n[active]\nname = "@ + a@ + "\n"@));
    } else {
        assert(s@ =~= s@ + Seq::<char>::empty());
    }
    s
}

fn find_pair(m: &Vec<(String, String)>, k: &String) -> (r: Option<usize>)
    ensures
        match r {
            Some(i) => pair_pos(pairs_view(m@), k@) == Some(i as int),
            None => pair_pos(pairs_view(m@), k@) is None,
        },
        r matches Some(i) ==> i < m@.len(),
{
    let ghost pv = pairs_view(m@);
    proof {
        lemma_pair_pos(pv, k@);
    }
    let mut i: usize = 0;
    while i < m.len()
        invariant
            i <= m@.len(),
            pv == pairs_view(m@),
            forall|j: int| 0 <= j < i ==> pv[j].0 != k@,
            pair_pos(pv, k@) matches Some(p) ==> i <= p && p < pv.len() && pv[p].0 == k@ && forall|j: int| 0 <= j < p ==> pv[j].0 != k@,
            pair_pos(pv, k@) is None ==> forall|j: int| 0 <= j < pv.len() ==> pv[j].0 != k@,
        decreases m@.len() - i,
    {
        assert(pv[i as int] == (m@[i as int].0@, m@[i as int].1@));
        if m[i].0 == *k {
            return Some(i);
        }
        i += 1;
    }
    None
}

fn set_pair(m: &mut Vec<(String, String)>, k: String, v: String)
    ensures
        pairs_view(final(m)@) == pair_set(pairs_view(old(m)@), k@, v@),
{
    match find_pair(m, &k) {
        Some(i) => {
            let ghost kv = k@;
            let ghost vv = v@;
            m.set(i, (k, v));
            assert(pairs_view(m@) =~= pairs_view(old(m)@).update(i as int, (kv, vv)));
        },
        None => {
            let ghost kv = k@;
            let ghost vv = v@;
            let ghost pv = pairs_view(m@);
            let mut j: usize = 0;
            while j < m.len() && !lex_less(&k, &m[j].0)
                invariant
                    j <= m@.len(),
                    pv == pairs_view(m@),
                    kv == k@,
                    ins_from(pv, kv, 0) == ins_from(pv, kv, j as int),
                decreases m@.len() - j,
            {
                assert(pv[j as int].0 == m@[j as int].0@);
                j += 1;
            }
            if j < m.len() {
                assert(pv[j as int].0 == m@[j as int].0@);
            }
            assert(ins_from(pv, kv, j as int) == j);
            m.insert(j, (k, v));
            assert(pairs_view(m@) =~= pv.insert(j as int, (kv, vv)));
        },
    }
}

/// Maps `k` to `v`: in place when `k` is there, else inserted where its name sorts.
pub fn set_pair_pub(m: &mut Vec<(String, String)>, k: String, v: String)
    ensures
        pairs_view(final(m)@) == pair_set(pairs_view(old(m)@), k@, v@),
        sorted_names(pairs_view(old(m)@)) ==> sorted_names(pairs_view(final(m)@)),
{
    let ghost kv = k@;
    let ghost vv = v@;
    proof {
        if sorted_names(pairs_view(m@)) {
            lemma_pair_set_sorted(pairs_view(m@), kv, vv);
        }
    }
    set_pair(m, k, v)
}

fn drop_pair(m: &Vec<(String, String)>, k: &str) -> (r: Vec<(String, String)>)
    ensures
        pairs_view(r@) == pair_drop(pairs_view(m@), k@),
{
    let ghost pv = pairs_view(m@);
    let key = String::from_str(k);
    let mut out: Vec<(String, String)> = Vec::new();
    let mut i: usize = 0;
    while i < m.len()
        invariant
            i <= m@.len(),
            pv == pairs_view(m@),
            key@ == k@,
            pairs_view(out@) == pair_drop(pv.take(i as int), k@),
        decreases m@.len() - i,
    {
        assert(pv.take(i + 1).drop_last() == pv.take(i as int));
        assert(pv.take(i + 1).last() == (m@[i as int].0@, m@[i as int].1@));
        if !(m[i].0 == key) {
            let ghost before = out@;
            out.push((m[i].0.clone(), m[i].1.clone()));
            assert(out@.drop_last() == before);
            assert(pairs_view(out@) =~= pairs_view(before).push((m@[i as int].0@, m@[i as int].1@)));
        }
        i += 1;
    }
    assert(pv.take(i as int) == pv);
    out
}

fn clone_opt(o: &Option<String>) -> (r: Option<String>)
    ensures
        r == *o,
{
    match o {
        Some(s) => Some(s.clone()),
        None => None,
    }
}

impl Default for AppConfig {
    fn default() -> (r: Self)
        ensures
            r@ == default_view(),
    {
        AppConfig::defaults()
    }
}

impl AppConfig {
    /// The built-in defaults.
    pub fn defaults() -> (r: Self)
        ensures
            r@ == default_view(),
    {
        let r = AppConfig {
            repo_url: String::new(),
            db_path: String::from_str("/var/lib/nxpkg/nxpkg_meta.db"),
            cache_dir: String::from_str("/var/cache/nxpkg"),
            require_signed_index: true,
            pubkey_path: String::from_str("/etc/nxpkg/nxpkg.pub"),
            repo_remotes: Vec::new(),
            active_repo: None,
        };
        assert(pairs_view(r.repo_remotes@) =~= Seq::<(Seq<char>, Seq<char>)>::empty());
        r
    }

    /// Applies one setting; `section` is the lower-cased section name.
    pub fn apply_setting(&mut self, section: &str, key: &str, value: &str)
        ensures
            final(self)@ == setting_applied(old(self)@, section@, key@, value@),
    {
        let s = String::from_str(section);
        let k = String::from_str(key);
        if s == String::from_str("repo") && k == String::from_str("url") {
            self.repo_url = String::from_str(value);
        } else if s == String::from_str("storage") && k == String::from_str("db_path") {
            self.db_path = String::from_str(value);
        } else if s == String::from_str("storage") && k == String::from_str("cache_dir") {
            self.cache_dir = String::from_str(value);
        } else if s == String::from_str("security") && k == String::from_str(
            "require_signed_index",
        ) {
            let l = ascii_lower(value);
            self.require_signed_index = l == String::from_str("1") || l == String::from_str("true")
                || l == String::from_str("yes");
        } else if s == String::from_str("security") && k == String::from_str("pubkey_path") {
            self.pubkey_path = String::from_str(value);
        }
    }

    /// Applies one remotes-file entry; `section` is the lower-cased section name.
    pub fn apply_remote(&mut self, section: &str, key: &str, value: &str)
        ensures
            final(self)@ == remote_applied(old(self)@, section@, key@, value@),
    {
        let s = String::from_str(section);
        let lk = ascii_lower(key);
        if s == String::from_str("repo_remotes") {
            set_pair(&mut self.repo_remotes, String::from_str(key), String::from_str(value));
        } else if s == String::from_str("active") && (lk == String::from_str("name") || lk
            == String::from_str("active")) {
            self.active_repo = Some(String::from_str(value));
        }
    }

    /// Applies the settings of a configuration file's text.
    pub fn apply_config_text(&mut self, text: &str)
        ensures
            final(self)@ == settings_applied(old(self)@, ini_entries(text@)),
    {
        let es = read_ini(text);
        let ghost ev = es@.map_values(|e: IniEntry| entry_view(e));
        let ghost start = self@;
        let mut i: usize = 0;
        while i < es.len()
            invariant
                i <= es@.len(),
                ev == es@.map_values(|e: IniEntry| entry_view(e)),
                self@ == settings_applied(start, ev.take(i as int)),
            decreases es@.len() - i,
        {
            assert(ev.take(i + 1).drop_last() == ev.take(i as int));
            assert(ev.take(i + 1).last() == entry_view(es@[i as int]));
            let sec = lowercase(trimmed(es[i].section.as_str()).as_str());
            self.apply_setting(sec.as_str(), es[i].key.as_str(), es[i].value.as_str());
            i += 1;
        }
        assert(ev.take(i as int) == ev);
    }

    /// Applies the entries of a remotes file's text.
    pub fn apply_remotes_text(&mut self, text: &str)
        ensures
            final(self)@ == remotes_applied(old(self)@, ini_entries(text@)),
    {
        let es = read_ini(text);
        let ghost ev = es@.map_values(|e: IniEntry| entry_view(e));
        let ghost start = self@;
        let mut i: usize = 0;
        while i < es.len()
            invariant
                i <= es@.len(),
                ev == es@.map_values(|e: IniEntry| entry_view(e)),
                self@ == remotes_applied(start, ev.take(i as int)),
            decreases es@.len() - i,
        {
            assert(ev.take(i + 1).drop_last() == ev.take(i as int));
            assert(ev.take(i + 1).last() == entry_view(es@[i as int]));
            let sec = lowercase(trimmed(es[i].section.as_str()).as_str());
            self.apply_remote(sec.as_str(), es[i].key.as_str(), es[i].value.as_str());
            i += 1;
        }
        assert(ev.take(i as int) == ev);
    }

    /// Points the repository URL at the active remote, when it is configured.
    pub fn apply_active(&mut self)
        ensures
            final(self)@ == active_applied(old(self)@),
    {
        if let Some(a) = &self.active_repo {
            let a = a.clone();
            if let Some(i) = find_pair(&self.repo_remotes, &a) {
                assert(pairs_view(self.repo_remotes@)[i as int].1 == self.repo_remotes@[i as int].1@);
                self.repo_url = self.repo_remotes[i].1.clone();
            }
        }
    }

    /// Applies the environment's settings.
    pub fn apply_env(&mut self, env: &EnvSettings)
        ensures
            final(self)@ == env_applied(
                old(self)@,
                opt_string_view(env.repo_url),
                opt_string_view(env.db_path),
                opt_string_view(env.cache_dir),
                opt_string_view(env.require_signed_index),
                opt_string_view(env.pubkey_path),
            ),
    {
        if let Some(v) = &env.repo_url {
            self.repo_url = v.clone();
        }
        if let Some(v) = &env.db_path {
            self.db_path = v.clone();
        }
        if let Some(v) = &env.cache_dir {
            self.cache_dir = v.clone();
        }
        if let Some(v) = &env.require_signed_index {
            self.require_signed_index = *v == String::from_str("1") || ascii_lower(v.as_str())
                == String::from_str("true");
        }
        if let Some(v) = &env.pubkey_path {
            self.pubkey_path = v.clone();
        }
    }

    /// Fills an empty repository URL from the active remote, or else the only remote.
    pub fn apply_fallback(&mut self)
        ensures
            final(self)@ == fallback_applied(old(self)@),
    {
        if trimmed(self.repo_url.as_str()).as_str().is_empty() {
            let cand = if self.active_repo.is_some() {
                clone_opt(&self.active_repo)
            } else if self.repo_remotes.len() == 1 {
                assert(pairs_view(self.repo_remotes@)[0].0 == self.repo_remotes@[0].0@);
                Some(self.repo_remotes[0].0.clone())
            } else {
                None
            };
            if let Some(n) = cand {
                if let Some(i) = find_pair(&self.repo_remotes, &n) {
                    assert(pairs_view(self.repo_remotes@)[i as int].1 == self.repo_remotes@[i as int].1@);
                    self.repo_url = self.repo_remotes[i].1.clone();
                }
            }
        }
    }

    /// The effective settings from their sources, lowest precedence first: defaults,
    /// the system file, the user file, the system and user remotes files (and the
    /// active remote), the environment, and the fallback for an empty URL.
    pub fn from_sources(
        system_cfg: Option<&str>,
        user_cfg: Option<&str>,
        system_remotes: Option<&str>,
        user_remotes: Option<&str>,
        env: &EnvSettings,
    ) -> (r: Self)
        ensures
            sorted_names(r@.remotes),
            unique_names(r@.remotes),
            r@ == fallback_applied(
                env_applied(
                    active_applied(
                        remotes_applied(
                            remotes_applied(
                                settings_applied(
                                    settings_applied(default_view(), text_entries(opt_view(system_cfg))),
                                    text_entries(opt_view(user_cfg)),
                                ),
                                text_entries(opt_view(system_remotes)),
                            ),
                            text_entries(opt_view(user_remotes)),
                        ),
                    ),
                    opt_string_view(env.repo_url),
                    opt_string_view(env.db_path),
                    opt_string_view(env.cache_dir),
                    opt_string_view(env.require_signed_index),
                    opt_string_view(env.pubkey_path),
                ),
            ),
    {
        let mut c = AppConfig::defaults();
        if let Some(t) = system_cfg {
            c.apply_config_text(t);
        }
        if let Some(t) = user_cfg {
            c.apply_config_text(t);
        }
        proof {
            let d = default_view();
            let s1 = settings_applied(d, text_entries(opt_view(system_cfg)));
            lemma_settings_keep_remotes(d, text_entries(opt_view(system_cfg)));
            lemma_settings_keep_remotes(s1, text_entries(opt_view(user_cfg)));
        }
        let ghost before = c@;
        c.apply_remotes_from(system_remotes, user_remotes);
        proof {
            lemma_remotes_applied_sorted(before, text_entries(opt_view(system_remotes)));
            lemma_remotes_applied_sorted(
                remotes_applied(before, text_entries(opt_view(system_remotes))),
                text_entries(opt_view(user_remotes)),
            );
        }
        c.apply_env(env);
        c.apply_fallback();
        proof {
            lemma_sorted_unique(c@.remotes);
        }
        c
    }

    /// Applies the system and user remotes files, then the active remote.
    pub fn apply_remotes_from(&mut self, system_remotes: Option<&str>, user_remotes: Option<&str>)
        ensures
            final(self)@ == active_applied(
                remotes_applied(
                    remotes_applied(old(self)@, text_entries(opt_view(system_remotes))),
                    text_entries(opt_view(user_remotes)),
                ),
            ),
    {
        if let Some(t) = system_remotes {
            self.apply_remotes_text(t);
        } else {
            assert(Seq::<(Seq<char>, Seq<char>, Seq<char>)>::empty().len() == 0);
        }
        if let Some(t) = user_remotes {
            self.apply_remotes_text(t);
        }
        self.apply_active();
    }

    /// The new user remotes file after adding (or updating) remote `name` with `url`,
    /// given the remotes read from the system and user files.
    pub fn add_repo_remote(&self, name: &str, url: &str) -> (r: String)
        ensures
            r@ == remotes_text(pair_set(self@.remotes, trim(name@), trim(url@)), self@.active),
    {
        let mut m: Vec<(String, String)> = Vec::new();
        let mut i: usize = 0;
        while i < self.repo_remotes.len()
            invariant
                i <= self.repo_remotes@.len(),
                pairs_view(m@) == pairs_view(self.repo_remotes@).take(i as int),
            decreases self.repo_remotes@.len() - i,
        {
            let ghost before = m@;
            m.push((self.repo_remotes[i].0.clone(), self.repo_remotes[i].1.clone()));
            assert(m@.drop_last() == before);
            assert(pairs_view(m@) =~= pairs_view(before).push(
                (self.repo_remotes@[i as int].0@, self.repo_remotes@[i as int].1@),
            ));
            assert(pairs_view(m@) =~= pairs_view(self.repo_remotes@).take(i + 1));
            i += 1;
        }
        assert(pairs_view(self.repo_remotes@).take(i as int) == pairs_view(self.repo_remotes@));
        set_pair(&mut m, trimmed(name), trimmed(url));
        let active = clone_opt(&self.active_repo);
        match &active {
            Some(a) => render_remotes(&m, Some(a.as_str())),
            None => render_remotes(&m, None),
        }
    }

    /// The new user remotes file after removing remote `name`; an active remote of that
    /// name stops being active.
    pub fn remove_repo_remote(&self, name: &str) -> (r: String)
        ensures
            r@ == remotes_text(
                pair_drop(self@.remotes, name@),
                if self@.active == Some(name@) {
                    None
                } else {
                    self@.active
                },
            ),
    {
        let m = drop_pair(&self.repo_remotes, name);
        match &self.active_repo {
            Some(a) => {
                if *a == String::from_str(name) {
                    render_remotes(&m, None)
                } else {
                    render_remotes(&m, Some(a.as_str()))
                }
            },
            None => render_remotes(&m, None),
        }
    }

    /// The new user remotes file with `name` active; the remote must be configured.
    pub fn set_active_repo(&self, name: &str) -> (r: Result<String, ConfigError>)
        ensures
            pair_pos(self@.remotes, name@) is None ==> r == Err::<String, ConfigError>(
                ConfigError::UnknownRemote,
            ),
            pair_pos(self@.remotes, name@) is Some ==> (r is Ok && r->Ok_0@ == remotes_text(
                self@.remotes,
                Some(name@),
            )),
    {
        match find_pair(&self.repo_remotes, &String::from_str(name)) {
            None => Err(ConfigError::UnknownRemote),
            Some(_) => Ok(render_remotes(&self.repo_remotes, Some(name))),
        }
    }
}

} // verus!
