//! The package recipe and its INI-like text form (`package.cfg`).
use vstd::prelude::*;
use crate::text::{
    is_ws, lemma_list_items_join, lemma_split_append, lemma_split_nonempty, lemma_trim_tight, tight, trim_end, trim_start,
    first_at, find_char, join, list_items, list_items_of, push_joined, lemma_first_at_unique, push_str, range_eq,
    slice_string, split_bounds, split_char, to_chars, trim, trim_bounds, views,
};

verus! {

#[derive(Debug, Clone)]
pub struct PackageInfo {
    pub name: String,
    pub version: String,
    pub architectures: Vec<String>,
}

#[derive(Debug, Clone)]
pub struct BuildInfo {
    pub dependencies: Vec<String>,
    pub commands: Vec<String>,
}

#[derive(Debug, Clone)]
pub struct InstallInfo {
    pub install_params: Vec<String>,
    /// Filled in at install time; never read from the recipe text.
    pub installed_files: Vec<String>,
}

#[derive(Debug, Clone)]
pub struct PackageRecipe {
    pub package: PackageInfo,
    pub build: BuildInfo,
    pub install: InstallInfo,
}

/// The mathematical content of a recipe.
pub ghost struct RecipeView {
    pub name: Seq<char>,
    pub version: Seq<char>,
    pub architectures: Seq<Seq<char>>,
    pub dependencies: Seq<Seq<char>>,
    pub commands: Seq<Seq<char>>,
    pub install_params: Seq<Seq<char>>,
    pub installed_files: Seq<Seq<char>>,
}

impl View for PackageRecipe {
    type V = RecipeView;

    open spec fn view(&self) -> RecipeView {
        RecipeView {
            name: self.package.name@,
            version: self.package.version@,
            architectures: views(self.package.architectures@),
            dependencies: views(self.build.dependencies@),
            commands: views(self.build.commands@),
            install_params: views(self.install.install_params@),
            installed_files: views(self.install.installed_files@),
        }
    }
}

pub open spec fn empty_recipe() -> RecipeView {
    RecipeView {
        name: Seq::empty(),
        version: Seq::empty(),
        architectures: Seq::empty(),
        dependencies: Seq::empty(),
        commands: Seq::empty(),
        install_params: Seq::empty(),
        installed_files: Seq::empty(),
    }
}

/// The effect of `key = value` inside `[section]`; unknown sections and keys change nothing.
pub open spec fn apply_entry(
    r: RecipeView,
    section: Seq<char>,
    key: Seq<char>,
    value: Seq<char>,
) -> RecipeView {
    if section == "package"@ && key == "name"@ {
        RecipeView { name: value, ..r }
    } else if section == "package"@ && key == "version"@ {
        RecipeView { version: value, ..r }
    } else if section == "package"@ && key == "architectures"@ {
        RecipeView { architectures: list_items(value, ','), ..r }
    } else if section == "build"@ && key == "dependencies"@ {
        RecipeView { dependencies: list_items(value, ','), ..r }
    } else if section == "build"@ && key == "commands"@ {
        RecipeView { commands: list_items(value, ';'), ..r }
    } else if section == "install"@ && key == "install_params"@ {
        RecipeView { install_params: list_items(value, ','), ..r }
    } else {
        r
    }
}

/// One line of recipe text, read in the state (current section, recipe so far).
pub open spec fn parse_line(st: (Seq<char>, RecipeView), line: Seq<char>) -> (
    Seq<char>,
    RecipeView,
) {
    let l = trim(line);
    if l.len() == 0 || l[0] == '#' || l[0] == ';' {
        st
    } else if l[0] == '[' && l.last() == ']' {
        (l.subrange(1, l.len() - 1), st.1)
    } else if exists|i: int| first_at(l, '=', i) {
        let i = choose|i: int| first_at(l, '=', i);
        (st.0, apply_entry(st.1, st.0, trim(l.subrange(0, i)), trim(l.subrange(i + 1, l.len() as int))))
    } else {
        st
    }
}

pub open spec fn parse_lines(ls: Seq<Seq<char>>) -> (Seq<char>, RecipeView)
    decreases ls.len(),
{
    if ls.len() == 0 {
        (Seq::empty(), empty_recipe())
    } else {
        parse_line(parse_lines(ls.drop_last()), ls.last())
    }
}

/// What the recipe text `content` says, before the required fields are checked.
pub open spec fn parsed_recipe(content: Seq<char>) -> RecipeView {
    parse_lines(split_char(content, '\n')).1
}

/// A list-valued line `<prefix><items joined by sep>` and a newline; nothing for an empty list.
pub open spec fn list_line(prefix: Seq<char>, items: Seq<Seq<char>>, sep: Seq<char>) -> Seq<
    char,
> {
    if items.len() == 0 {
        Seq::empty()
    } else {
        prefix + join(items, sep) + "\n"@
    }
}

/// The text form of a recipe: sections `[package]`, `[build]`, `[install]`; lists joined
/// by `, ` except build commands, joined by `; `. Installed files are not written.
pub open spec fn render_recipe(r: RecipeView) -> Seq<char> {
    "[package]\nname = "@ + r.name + "\nversion = "@ + r.version + "\n"@ + list_line(
        "architectures = "@,
        r.architectures,
        ", "@,
    ) + "\n[build]\n"@ + list_line("dependencies = "@, r.dependencies, ", "@) + list_line(
        "commands = "@,
        r.commands,
        "; "@,
    ) + "\n[install]\n"@ + list_line("install_params = "@, r.install_params, ", "@)
}

fn push_list_line(s: &mut String, prefix: &str, items: &Vec<String>, sep: &str)
    ensures
        final(s)@ == old(s)@ + list_line(prefix@, views(items@), sep@),
{
    if items.len() > 0 {
        let ghost start = s@;
        push_str(s, prefix);
        push_joined(s, items, sep);
        push_str(s, "\n");
        assert(s@ =~= start + list_line(prefix@, views(items@), sep@));
    } else {
        assert(s@ =~= s@ + Seq::<char>::empty());
    }
}

impl PackageRecipe {
    /// The recipe's text form, as written into `package.cfg`.
    pub fn to_cfg(&self) -> (r: String)
        ensures
            r@ == render_recipe(self@),
    {
        let mut s = String::new();
        push_str(&mut s, "[package]\nname = ");
        push_str(&mut s, self.package.name.as_str());
        push_str(&mut s, "\nversion = ");
        push_str(&mut s, self.package.version.as_str());
        push_str(&mut s, "\n");
        push_list_line(&mut s, "architectures = ", &self.package.architectures, ", ");
        push_str(&mut s, "\n[build]\n");
        push_list_line(&mut s, "dependencies = ", &self.build.dependencies, ", ");
        push_list_line(&mut s, "commands = ", &self.build.commands, "; ");
        push_str(&mut s, "\n[install]\n");
        push_list_line(&mut s, "install_params = ", &self.install.install_params, ", ");
        s
    }

    pub fn empty() -> (r: Self)
        ensures
            r@ == empty_recipe(),
    {
        let r = PackageRecipe {
            package: PackageInfo {
                name: String::new(),
                version: String::new(),
                architectures: Vec::new(),
            },
            build: BuildInfo { dependencies: Vec::new(), commands: Vec::new() },
            install: InstallInfo { install_params: Vec::new(), installed_files: Vec::new() },
        };
        assert(views(Seq::<String>::empty()) =~= Seq::<Seq<char>>::empty());
        assert(r@ =~= empty_recipe());
        r
    }

    /// Parses recipe text. Comments start with `#` or `;`; unknown sections and keys are
    /// ignored; `name` and `version` under `[package]` are required.
    pub fn from_str(content: &str) -> (r: Result<Self, String>)
        ensures
            r is Ok <==> parsed_recipe(content@).name.len() > 0 && parsed_recipe(
                content@,
            ).version.len() > 0,
            r matches Ok(rec) ==> rec@ == parsed_recipe(content@),
    {
        let chars = to_chars(content);
        let n = chars.len();
        let lines = split_bounds(&chars, 0, n, '\n');
        let ghost ls = split_char(chars@.subrange(0, n as int), '\n');
        assert(chars@.subrange(0, n as int) == content@);
        let k_package = to_chars("package");
        let k_build = to_chars("build");
        let k_install = to_chars("install");
        let k_name = to_chars("name");
        let k_version = to_chars("version");
        let k_arch = to_chars("architectures");
        let k_deps = to_chars("dependencies");
        let k_cmds = to_chars("commands");
        let k_params = to_chars("install_params");
        let mut rec = PackageRecipe::empty();
        let mut sa: usize = 0;
        let mut sb: usize = 0;
        let mut k: usize = 0;
        while k < lines.len()
            invariant
                n == chars@.len(),
                ls == split_char(content@, '\n'),
                lines@.len() == ls.len(),
                forall|j: int|
                    0 <= j < lines@.len() ==> (#[trigger] lines@[j]).0 <= lines@[j].1 <= n
                        && chars@.subrange(lines@[j].0 as int, lines@[j].1 as int) == ls[j],
                k <= lines@.len(),
                sa <= sb <= n,
                k_package@ == "package"@,
                k_build@ == "build"@,
                k_install@ == "install"@,
                k_name@ == "name"@,
                k_version@ == "version"@,
                k_arch@ == "architectures"@,
                k_deps@ == "dependencies"@,
                k_cmds@ == "commands"@,
                k_params@ == "install_params"@,
                parse_lines(ls.take(k as int)) == (chars@.subrange(sa as int, sb as int), rec@),
            decreases lines@.len() - k,
        {
            let (a, b) = lines[k];
            assert(lines@[k as int] == (a, b));
            assert(ls.take(k + 1).drop_last() == ls.take(k as int));
            assert(ls.take(k + 1).last() == ls[k as int]);
            let ghost l = trim(ls[k as int]);
            let (ta, tb) = trim_bounds(&chars, a, b);
            assert(l == chars@.subrange(ta as int, tb as int));
            if ta == tb || chars[ta] == '#' || chars[ta] == ';' {
            } else if chars[ta] == '[' && chars[tb - 1] == ']' {
                assert(l.subrange(1, l.len() - 1) == chars@.subrange(ta + 1, tb - 1));
                sa = ta + 1;
                sb = tb - 1;
            } else {
                match find_char(&chars, ta, tb, '=') {
                    None => {
                        assert forall|i: int| !first_at(l, '=', i) by {
                            if 0 <= i < l.len() {
                                assert(l[i] == chars@[ta + i]);
                            }
                        }
                    },
                    Some(e) => {
                        let ghost i = e - ta;
                        assert(first_at(l, '=', i));
                        assert forall|j: int| first_at(l, '=', j) implies j == i by {
                            lemma_first_at_unique(l, '=', i, j);
                        }
                        assert(l.subrange(0, i) == chars@.subrange(ta as int, e as int));
                        assert(l.subrange(i + 1, l.len() as int) == chars@.subrange(
                            e + 1,
                            tb as int,
                        ));
                        let (ka, kb) = trim_bounds(&chars, ta, e);
                        let (va, vb) = trim_bounds(&chars, e + 1, tb);
                        let in_package = range_eq(&chars, sa, sb, &k_package);
                        let in_build = range_eq(&chars, sa, sb, &k_build);
                        let in_install = range_eq(&chars, sa, sb, &k_install);
                        if in_package && range_eq(&chars, ka, kb, &k_name) {
                            rec.package.name = slice_string(&chars, va, vb);
                        } else if in_package && range_eq(&chars, ka, kb, &k_version) {
                            rec.package.version = slice_string(&chars, va, vb);
                        } else if in_package && range_eq(&chars, ka, kb, &k_arch) {
                            rec.package.architectures = list_items_of(&chars, va, vb, ',');
                        } else if in_build && range_eq(&chars, ka, kb, &k_deps) {
                            rec.build.dependencies = list_items_of(&chars, va, vb, ',');
                        } else if in_build && range_eq(&chars, ka, kb, &k_cmds) {
                            rec.build.commands = list_items_of(&chars, va, vb, ';');
                        } else if in_install && range_eq(&chars, ka, kb, &k_params) {
                            rec.install.install_params = list_items_of(&chars, va, vb, ',');
                        }
                    },
                }
            }
            k += 1;
        }
        assert(ls.take(k as int) == ls);
        if rec.package.name.as_str().is_empty() {
            return Err(String::from_str("Recipe is missing 'name' in [package]"));
        }
        if rec.package.version.as_str().is_empty() {
            return Err(String::from_str("Recipe is missing 'version' in [package]"));
        }
        Ok(rec)
    }
}

/// A field that the text form carries unchanged: no white space at either end, no
/// line break.
pub open spec fn plain_field(s: Seq<char>) -> bool {
    tight(s) && !s.contains('\n')
}

/// List entries that the text form carries unchanged: plain, without the separator.
pub open spec fn plain_items(items: Seq<Seq<char>>, sep: char) -> bool {
    forall|i: int| 0 <= i < items.len() ==> plain_field(#[trigger] items[i]) && !items[i].contains(sep)
}

/// A recipe whose every field survives the text form.
pub open spec fn renderable(r: RecipeView) -> bool {
    &&& plain_field(r.name)
    &&& plain_field(r.version)
    &&& plain_items(r.architectures, ',')
    &&& plain_items(r.dependencies, ',')
    &&& plain_items(r.commands, ';')
    &&& plain_items(r.install_params, ',')
}

proof fn lemma_empty_line(st: (Seq<char>, RecipeView))
    ensures
        parse_line(st, Seq::empty()) == st,
{
    assert(trim_start(Seq::<char>::empty()) == Seq::<char>::empty());
    assert(trim_end(Seq::<char>::empty()) == Seq::<char>::empty());
}

/// Reading one more line `l` after text that ends at a line break.
proof fn lemma_next_line(s: Seq<char>, l: Seq<char>)
    requires
        s.len() == 0 || s.last() == '\n',
        !l.contains('\n'),
    ensures
        parse_lines(split_char(s + l + "\n"@, '\n')) == parse_line(
            parse_lines(split_char(s, '\n')),
            l,
        ),
{
    reveal_strlit("\n");
    lemma_split_nonempty(s, '\n');
    let p = split_char(s, '\n');
    if s.len() == 0 {
        assert(p == seq![Seq::<char>::empty()]);
    } else {
        assert(s == s.drop_last().push('\n'));
        assert(p == split_char(s.drop_last(), '\n').push(Seq::<char>::empty()));
    }
    assert(p.last() == Seq::<char>::empty());
    lemma_split_append(s, l, '\n');
    let q = split_char(s + l, '\n');
    assert(Seq::<char>::empty() + l == l);
    assert(q =~= p.drop_last().push(l));
    let t = s + l + "\n"@;
    assert(t.drop_last() == s + l);
    assert(t.last() == '\n');
    assert(split_char(t, '\n') == q.push(Seq::<char>::empty()));
    assert(q.push(Seq::<char>::empty()).drop_last() == q);
    lemma_empty_line(parse_lines(q));
    assert(q.drop_last() == p.drop_last());
    assert(p == p.drop_last().push(Seq::<char>::empty()));
    lemma_empty_line(parse_lines(p.drop_last()));
}

proof fn lemma_section_line(st: (Seq<char>, RecipeView), name: Seq<char>)
    requires
        name.len() > 0,
    ensures
        parse_line(st, "["@ + name + "]"@) == (name, st.1),
{
    reveal_strlit("[");
    reveal_strlit("]");
    let l = "["@ + name + "]"@;
    assert(l[0] == '[');
    assert(l.last() == ']');
    lemma_trim_tight(l);
    assert(l.subrange(1, l.len() - 1) =~= name);
}

proof fn lemma_entry_line(st: (Seq<char>, RecipeView), key: Seq<char>, value: Seq<char>)
    requires
        tight(key),
        !key.contains('='),
        key[0] != '#' && key[0] != ';' && key[0] != '[',
        tight(value),
    ensures
        parse_line(st, key + " = "@ + value) == (st.0, apply_entry(st.1, st.0, key, value)),
{
    reveal_strlit(" = ");
    reveal_strlit(" ");
    let l = key + " = "@ + value;
    assert(l[0] == key[0]);
    assert(l.last() == value.last());
    lemma_trim_tight(l);
    let i = key.len() as int + 1;
    assert(l[i] == '=');
    assert forall|j: int| 0 <= j < i implies l[j] != '=' by {
        if j < key.len() {
            assert(l[j] == key[j]);
        }
    }
    assert(first_at(l, '=', i));
    assert forall|j: int| first_at(l, '=', j) implies j == i by {
        lemma_first_at_unique(l, '=', i, j);
    }
    assert(l.subrange(0, i) =~= key + " "@);
    assert(l.subrange(i + 1, l.len() as int) =~= " "@ + value);
    lemma_trim_tight(key);
    lemma_trim_tight(value);
}

proof fn lemma_join_plain(items: Seq<Seq<char>>, sep: char)
    requires
        items.len() > 0,
        plain_items(items, sep),
        sep != '\n',
        !is_ws(sep),
    ensures
        plain_field(join(items, seq![sep] + " "@)),
    decreases items.len(),
{
    reveal_strlit(" ");
    let sp = seq![sep] + " "@;
    assert(plain_field(items[0]));
    if items.len() > 1 {
        let init = items.drop_last();
        assert forall|i: int| 0 <= i < init.len() implies plain_field(#[trigger] init[i]) && !init[i].contains(sep) by {
            assert(init[i] == items[i]);
        }
        lemma_join_plain(init, sep);
        let j = join(init, sp);
        let last = items.last();
        assert(plain_field(items[items.len() - 1]));
        let whole = j + sp + last;
        assert(join(items, sp) == whole);
        assert(whole[0] == j[0]);
        assert(whole.last() == last.last());
        assert(!whole.contains('\n')) by {
            if whole.contains('\n') {
                let k = choose|k: int| 0 <= k < whole.len() && whole[k] == '\n';
                if k < j.len() {
                    assert(j[k] == '\n');
                } else if k < j.len() + 2 {
                    assert(sp[k - j.len()] == '\n');
                } else {
                    assert(last[k - j.len() - 2] == '\n');
                }
            }
        }
    }
}

/// A list line, read after text that ends at a line break, in section `st.0`.
proof fn lemma_list_line(s: Seq<char>, key: Seq<char>, items: Seq<Seq<char>>, sep: char)
    requires
        s.len() == 0 || s.last() == '\n',
        tight(key),
        !key.contains('='),
        !key.contains('\n'),
        key[0] != '#' && key[0] != ';' && key[0] != '[',
        plain_items(items, sep),
        sep != '\n',
        !is_ws(sep),
    ensures
        ({
            let st = parse_lines(split_char(s, '\n'));
            let t = s + list_line(key + " = "@, items, seq![sep] + " "@);
            &&& t.len() == 0 || t.last() == '\n'
            &&& parse_lines(split_char(t, '\n')) == if items.len() == 0 {
                st
            } else {
                (st.0, apply_entry(st.1, st.0, key, join(items, seq![sep] + " "@)))
            }
        }),
{
    reveal_strlit("\n");
    reveal_strlit(" = ");
    if items.len() == 0 {
        assert(s + Seq::<char>::empty() == s);
    } else {
        lemma_join_plain(items, sep);
        let v = join(items, seq![sep] + " "@);
        let l = key + " = "@ + v;
        assert(!l.contains('\n')) by {
            if l.contains('\n') {
                let k = choose|k: int| 0 <= k < l.len() && l[k] == '\n';
                if k < key.len() {
                    assert(key[k] == '\n');
                } else if k < key.len() + 3 {
                } else {
                    assert(v[k - key.len() - 3] == '\n');
                }
            }
        }
        assert(s + list_line(key + " = "@, items, seq![sep] + " "@) =~= s + l + "\n"@);
        lemma_next_line(s, l);
        lemma_entry_line(parse_lines(split_char(s, '\n')), key, v);
    }
}

/// A key line `key = value`, read after text that ends at a line break.
proof fn lemma_key_line(s: Seq<char>, key: Seq<char>, value: Seq<char>)
    requires
        s.len() == 0 || s.last() == '\n',
        tight(key),
        !key.contains('='),
        !key.contains('\n'),
        key[0] != '#' && key[0] != ';' && key[0] != '[',
        plain_field(value),
    ensures
        ({
            let st = parse_lines(split_char(s, '\n'));
            parse_lines(split_char(s + (key + " = "@ + value) + "\n"@, '\n')) == (
                st.0,
                apply_entry(st.1, st.0, key, value),
            )
        }),
{
    reveal_strlit(" = ");
    let l = key + " = "@ + value;
    assert(!l.contains('\n')) by {
        if l.contains('\n') {
            let k = choose|k: int| 0 <= k < l.len() && l[k] == '\n';
            if k < key.len() {
                assert(key[k] == '\n');
            } else if k < key.len() + 3 {
            } else {
                assert(value[k - key.len() - 3] == '\n');
            }
        }
    }
    lemma_next_line(s, l);
    lemma_entry_line(parse_lines(split_char(s, '\n')), key, value);
}

/// A literal line, read after text that ends at a line break.
proof fn lemma_plain_line(s: Seq<char>, l: Seq<char>)
    requires
        s.len() == 0 || s.last() == '\n',
        !l.contains('\n'),
    ensures
        parse_lines(split_char(s + l + "\n"@, '\n')) == parse_line(parse_lines(split_char(s, '\n')), l),
        (s + l + "\n"@).last() == '\n',
{
    reveal_strlit("\n");
    lemma_next_line(s, l);
}

proof fn lemma_bracket_line(name: Seq<char>)
    requires
        !name.contains('\n'),
        name.len() > 0,
    ensures
        !("["@ + name + "]"@).contains('\n'),
{
    reveal_strlit("[");
    reveal_strlit("]");
    let l = "["@ + name + "]"@;
    if l.contains('\n') {
        let k = choose|k: int| 0 <= k < l.len() && l[k] == '\n';
        if 0 < k < l.len() - 1 {
            assert(name[k - 1] == '\n');
        }
    }
}

proof fn lemma_literal_keys()
    ensures
        tight("name"@) && !("name"@).contains('=') && !("name"@).contains('\n'),
        tight("version"@) && !("version"@).contains('=') && !("version"@).contains('\n'),
        tight("architectures"@) && !("architectures"@).contains('=') && !("architectures"@).contains('\n'),
        tight("dependencies"@) && !("dependencies"@).contains('=') && !("dependencies"@).contains('\n'),
        tight("commands"@) && !("commands"@).contains('=') && !("commands"@).contains('\n'),
        tight("install_params"@) && !("install_params"@).contains('=') && !("install_params"@).contains('\n'),
        ("name"@)[0] == 'n' && ("version"@)[0] == 'v' && ("architectures"@)[0] == 'a',
        ("dependencies"@)[0] == 'd' && ("commands"@)[0] == 'c' && ("install_params"@)[0] == 'i',
        !is_ws(',') && !is_ws(';'),
{
    reveal_strlit("name");
    reveal_strlit("version");
    reveal_strlit("architectures");
    reveal_strlit("dependencies");
    reveal_strlit("commands");
    reveal_strlit("install_params");
}

proof fn lemma_initial_state()
    ensures
        parse_lines(split_char(Seq::<char>::empty(), '\n')) == (Seq::<char>::empty(), empty_recipe()),
{
    let e = Seq::<char>::empty();
    let ls = split_char(e, '\n');
    assert(ls == seq![e]);
    assert(ls.drop_last() =~= Seq::<Seq<char>>::empty());
    assert(ls.last() == e);
    assert(parse_lines(ls.drop_last()) == (e, empty_recipe()));
    lemma_empty_line((e, empty_recipe()));
}

/// The `[package]` part of the text.
pub open spec fn package_text(r: RecipeView) -> Seq<char> {
    "[package]\nname = "@ + r.name + "\nversion = "@ + r.version + "\n"@ + list_line(
        "architectures = "@,
        r.architectures,
        ", "@,
    )
}

#[verifier::rlimit(50)]
proof fn lemma_package_part(r: RecipeView)
    requires
        renderable(r),
    ensures
        ({
            let t = package_text(r);
            &&& t.last() == '\n'
            &&& parse_lines(split_char(t, '\n')) == (
                "package"@,
                (RecipeView {
                    name: r.name,
                    version: r.version,
                    architectures: r.architectures,
                    ..empty_recipe()
                }),
            )
        }),
{
    reveal_strlit("[package]\nname = ");
    reveal_strlit("\nversion = ");
    reveal_strlit("\n");
    reveal_strlit("architectures = ");
    reveal_strlit(", ");
    reveal_strlit(" = ");
    reveal_strlit(" ");
    reveal_strlit("package");
    reveal_strlit("[");
    reveal_strlit("]");
    reveal_strlit("name");
    reveal_strlit("version");
    reveal_strlit("architectures");
    lemma_literal_keys();
    let e = Seq::<char>::empty();
    lemma_initial_state();
    let sec = "["@ + "package"@ + "]"@;
    lemma_bracket_line("package"@);
    lemma_plain_line(e, sec);
    lemma_section_line((e, empty_recipe()), "package"@);
    let t1 = e + sec + "\n"@;
    let r0 = empty_recipe();
    assert(parse_lines(split_char(t1, '\n')) == ("package"@, r0));
    lemma_key_line(t1, "name"@, r.name);
    let t2 = t1 + ("name"@ + " = "@ + r.name) + "\n"@;
    let r2 = RecipeView { name: r.name, ..r0 };
    assert(apply_entry(r0, "package"@, "name"@, r.name) == r2);
    assert(parse_lines(split_char(t2, '\n')) == ("package"@, r2));
    lemma_key_line(t2, "version"@, r.version);
    let t3 = t2 + ("version"@ + " = "@ + r.version) + "\n"@;
    let r3 = RecipeView { version: r.version, ..r2 };
    assert("version"@ != "name"@);
    assert(apply_entry(r2, "package"@, "version"@, r.version) == r3);
    assert(parse_lines(split_char(t3, '\n')) == ("package"@, r3));
    assert(t3.last() == '\n');
    lemma_list_line(t3, "architectures"@, r.architectures, ',');
    let r4 = RecipeView { architectures: r.architectures, ..r3 };
    if r.architectures.len() > 0 {
        lemma_list_items_join(r.architectures, ',', " "@);
        assert("architectures"@ != "name"@ && "architectures"@ != "version"@);
        assert(apply_entry(r3, "package"@, "architectures"@, join(r.architectures, seq![','] + " "@)) == r4);
    } else {
        assert(r.architectures =~= Seq::<Seq<char>>::empty());
        assert(r3 =~= r4);
    }
    assert(seq![','] + " "@ =~= ", "@);
    assert("architectures"@ + " = "@ =~= "architectures = "@);
    assert(package_text(r) =~= t3 + list_line("architectures"@ + " = "@, r.architectures, seq![','] + " "@));
    lemma_list_items_join(r.architectures, ',', " "@);
}

#[verifier::rlimit(50)]
proof fn lemma_build_part(s: Seq<char>, deps: Seq<Seq<char>>, cmds: Seq<Seq<char>>)
    requires
        s.len() > 0 && s.last() == '\n',
        plain_items(deps, ','),
        plain_items(cmds, ';'),
        parse_lines(split_char(s, '\n')).1.dependencies.len() == 0,
        parse_lines(split_char(s, '\n')).1.commands.len() == 0,
    ensures
        ({
            let st = parse_lines(split_char(s, '\n'));
            let t = s + "\n[build]\n"@ + list_line("dependencies = "@, deps, ", "@) + list_line(
                "commands = "@,
                cmds,
                "; "@,
            );
            &&& t.last() == '\n'
            &&& parse_lines(split_char(t, '\n')) == (
                "build"@,
                (RecipeView { dependencies: deps, commands: cmds, ..st.1 }),
            )
        }),
{
    reveal_strlit("\n[build]\n");
    reveal_strlit("\n");
    reveal_strlit("dependencies = ");
    reveal_strlit("commands = ");
    reveal_strlit(", ");
    reveal_strlit("; ");
    reveal_strlit(" = ");
    reveal_strlit(" ");
    reveal_strlit("build");
    reveal_strlit("dependencies");
    reveal_strlit("commands");
    reveal_strlit("[");
    reveal_strlit("]");
    lemma_literal_keys();
    let e = Seq::<char>::empty();
    let st = parse_lines(split_char(s, '\n'));
    lemma_plain_line(s, e);
    lemma_empty_line(st);
    let t5 = s + e + "\n"@;
    let sec = "["@ + "build"@ + "]"@;
    lemma_bracket_line("build"@);
    lemma_plain_line(t5, sec);
    lemma_section_line(st, "build"@);
    let t6 = t5 + sec + "\n"@;
    assert(s + "\n[build]\n"@ =~= t6);
    let r6 = st.1;
    assert(parse_lines(split_char(t6, '\n')) == ("build"@, r6));
    lemma_list_line(t6, "dependencies"@, deps, ',');
    assert(seq![','] + " "@ =~= ", "@);
    assert(seq![';'] + " "@ =~= "; "@);
    assert("dependencies"@ + " = "@ =~= "dependencies = "@);
    assert("commands"@ + " = "@ =~= "commands = "@);
    let t7 = t6 + list_line("dependencies = "@, deps, ", "@);
    let r7 = RecipeView { dependencies: deps, ..r6 };
    if deps.len() > 0 {
        lemma_list_items_join(deps, ',', " "@);
        assert(apply_entry(r6, "build"@, "dependencies"@, join(deps, ", "@)) == r7);
    } else {
        assert(deps =~= Seq::<Seq<char>>::empty());
        assert(r6.dependencies =~= deps);
        assert(r6 =~= r7);
    }
    assert(parse_lines(split_char(t7, '\n')) == ("build"@, r7));
    lemma_list_line(t7, "commands"@, cmds, ';');
    let r8 = RecipeView { commands: cmds, ..r7 };
    if cmds.len() > 0 {
        lemma_list_items_join(cmds, ';', " "@);
        assert("commands"@ != "dependencies"@);
        assert(apply_entry(r7, "build"@, "commands"@, join(cmds, "; "@)) == r8);
    } else {
        assert(cmds =~= Seq::<Seq<char>>::empty());
        assert(r7.commands =~= cmds);
        assert(r7 =~= r8);
    }
}

#[verifier::rlimit(50)]
proof fn lemma_install_part(s: Seq<char>, params: Seq<Seq<char>>)
    requires
        s.len() > 0 && s.last() == '\n',
        plain_items(params, ','),
        parse_lines(split_char(s, '\n')).1.install_params.len() == 0,
    ensures
        ({
            let st = parse_lines(split_char(s, '\n'));
            let t = s + "\n[install]\n"@ + list_line("install_params = "@, params, ", "@);
            parse_lines(split_char(t, '\n')) == (
                "install"@,
                (RecipeView { install_params: params, ..st.1 }),
            )
        }),
{
    reveal_strlit("\n[install]\n");
    reveal_strlit("\n");
    reveal_strlit("install_params = ");
    reveal_strlit(", ");
    reveal_strlit(" = ");
    reveal_strlit(" ");
    reveal_strlit("install");
    reveal_strlit("install_params");
    reveal_strlit("[");
    reveal_strlit("]");
    lemma_literal_keys();
    let e = Seq::<char>::empty();
    let st = parse_lines(split_char(s, '\n'));
    lemma_plain_line(s, e);
    lemma_empty_line(st);
    let t9 = s + e + "\n"@;
    let sec = "["@ + "install"@ + "]"@;
    lemma_bracket_line("install"@);
    lemma_plain_line(t9, sec);
    lemma_section_line(st, "install"@);
    let t10 = t9 + sec + "\n"@;
    assert(s + "\n[install]\n"@ =~= t10);
    let r10 = st.1;
    assert(parse_lines(split_char(t10, '\n')) == ("install"@, r10));
    lemma_list_line(t10, "install_params"@, params, ',');
    assert(seq![','] + " "@ =~= ", "@);
    assert("install_params"@ + " = "@ =~= "install_params = "@);
    let r11 = RecipeView { install_params: params, ..r10 };
    if params.len() > 0 {
        lemma_list_items_join(params, ',', " "@);
        assert(apply_entry(r10, "install"@, "install_params"@, join(params, ", "@)) == r11);
    } else {
        assert(params =~= Seq::<Seq<char>>::empty());
        assert(r10.install_params =~= params);
        assert(r10 =~= r11);
    }
}

/// Rendering a recipe and parsing the text gives the recipe back, for every recipe
/// whose fields and list entries have no white space at their ends, no line breaks,
/// and no list separator (`,`, or `;` for build commands). Installed files are not
/// part of the text.
pub proof fn lemma_recipe_round_trip(r: RecipeView)
    requires
        renderable(r),
    ensures
        parsed_recipe(render_recipe(r)) == (RecipeView { installed_files: Seq::empty(), ..r }),
        parsed_recipe(render_recipe(r)).name.len() > 0,
        parsed_recipe(render_recipe(r)).version.len() > 0,
{
    lemma_package_part(r);
    let p = package_text(r);
    lemma_build_part(p, r.dependencies, r.commands);
    let b = p + "\n[build]\n"@ + list_line("dependencies = "@, r.dependencies, ", "@) + list_line(
        "commands = "@,
        r.commands,
        "; "@,
    );
    lemma_install_part(b, r.install_params);
    assert(render_recipe(r) == b + "\n[install]\n"@ + list_line(
        "install_params = "@,
        r.install_params,
        ", "@,
    ));
    assert(parsed_recipe(render_recipe(r)) =~= (RecipeView { installed_files: Seq::empty(), ..r }));
}

} // verus!
