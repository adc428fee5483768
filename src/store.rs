//! The metadata store's logic: how a recipe is kept as a row, and the order in which
//! an uninstall cleans up.
use vstd::prelude::*;
use crate::recipe::{plain_items, PackageRecipe, RecipeView};
use crate::sandbox::holds;
use crate::text::{
    is_ws, join, lemma_list_items_join, list_items, list_items_of, push_joined, slice_string, to_chars,
    views,
};

verus! {

/// A recipe as the store keeps it: lists joined into single columns.
#[derive(Debug, Clone)]
pub struct RecipeRow {
    pub version: String,
    pub architectures: String,
    pub dependencies: String,
    pub build_commands: String,
    pub install_params: String,
    pub installed_files: String,
}

fn joined(items: &Vec<String>, sep: &str) -> (r: String)
    ensures
        r@ == join(views(items@), sep@),
{
    let mut s = String::new();
    push_joined(&mut s, items, sep);
    assert(s@ =~= join(views(items@), sep@));
    s
}

/// The row for a recipe: lists joined with `,`, except build commands and installed
/// files, joined with `;`.
pub fn recipe_row(recipe: &PackageRecipe) -> (r: RecipeRow)
    ensures
        r.version@ == recipe@.version,
        r.architectures@ == join(recipe@.architectures, ","@),
        r.dependencies@ == join(recipe@.dependencies, ","@),
        r.build_commands@ == join(recipe@.commands, ";"@),
        r.install_params@ == join(recipe@.install_params, ","@),
        r.installed_files@ == join(recipe@.installed_files, ";"@),
{
    RecipeRow {
        version: recipe.package.version.clone(),
        architectures: joined(&recipe.package.architectures, ","),
        dependencies: joined(&recipe.build.dependencies, ","),
        build_commands: joined(&recipe.build.commands, ";"),
        install_params: joined(&recipe.install.install_params, ","),
        installed_files: joined(&recipe.install.installed_files, ";"),
    }
}

fn items_of(s: &String, sep: char) -> (r: Vec<String>)
    ensures
        views(r@) == list_items(s@, sep),
{
    let v = to_chars(s.as_str());
    assert(v@.subrange(0, v@.len() as int) == s@);
    list_items_of(&v, 0, v.len(), sep)
}

/// The recipe stored under `name` as `row`.
pub open spec fn row_recipe(name: Seq<char>, row: RecipeRow) -> RecipeView {
    RecipeView {
        name,
        version: row.version@,
        architectures: list_items(row.architectures@, ','),
        dependencies: list_items(row.dependencies@, ','),
        commands: list_items(row.build_commands@, ';'),
        install_params: list_items(row.install_params@, ','),
        installed_files: list_items(row.installed_files@, ';'),
    }
}

/// Reads back the recipe stored under `name` as `row`.
pub fn recipe_from_row(name: &str, row: &RecipeRow) -> (r: PackageRecipe)
    ensures
        r@ == row_recipe(name@, *row),
{
    PackageRecipe {
        package: crate::recipe::PackageInfo {
            name: String::from_str(name),
            version: row.version.clone(),
            architectures: items_of(&row.architectures, ','),
        },
        build: crate::recipe::BuildInfo {
            dependencies: items_of(&row.dependencies, ','),
            commands: items_of(&row.build_commands, ';'),
        },
        install: crate::recipe::InstallInfo {
            install_params: items_of(&row.install_params, ','),
            installed_files: items_of(&row.installed_files, ';'),
        },
    }
}

/// Each list column of a row (as `recipe_row` joins it) reads back (as
/// `recipe_from_row` splits it) as the list it was made from, when the list's entries
/// are not empty, have no white space at their ends and hold no separator of their
/// column (`,`, or `;` for build commands and installed files).
pub proof fn lemma_row_round_trip(r: RecipeView)
    requires
        plain_items(r.architectures, ','),
        plain_items(r.dependencies, ','),
        plain_items(r.commands, ';'),
        plain_items(r.install_params, ','),
        plain_items(r.installed_files, ';'),
    ensures
        list_items(join(r.architectures, ","@), ',') == r.architectures,
        list_items(join(r.dependencies, ","@), ',') == r.dependencies,
        list_items(join(r.commands, ";"@), ';') == r.commands,
        list_items(join(r.install_params, ","@), ',') == r.install_params,
        list_items(join(r.installed_files, ";"@), ';') == r.installed_files,
{
    reveal_strlit(",");
    reveal_strlit(";");
    assert(seq![','] + Seq::<char>::empty() =~= ","@);
    assert(seq![';'] + Seq::<char>::empty() =~= ";"@);
    assert(!is_ws(',') && !is_ws(';'));
    lemma_list_items_join(r.architectures, ',', Seq::empty());
    lemma_list_items_join(r.dependencies, ',', Seq::empty());
    lemma_list_items_join(r.commands, ';', Seq::empty());
    lemma_list_items_join(r.install_params, ',', Seq::empty());
    lemma_list_items_join(r.installed_files, ';', Seq::empty());
}

/// The position of the last `/` in `p`.
pub open spec fn last_slash(p: Seq<char>) -> Option<int>
    decreases p.len(),
{
    if p.len() == 0 {
        None
    } else if p.last() == '/' {
        Some(p.len() - 1)
    } else {
        last_slash(p.drop_last())
    }
}

/// The directory that holds `p`: up to its last `/` (the root for `/x`); none when
/// `p` has no `/`.
pub open spec fn parent_dir(p: Seq<char>) -> Option<Seq<char>> {
    match last_slash(p) {
        Some(i) => if i == 0 {
            Some("/"@)
        } else {
            Some(p.subrange(0, i))
        },
        None => None,
    }
}

proof fn lemma_last_slash(p: Seq<char>)
    ensures
        last_slash(p) matches Some(i) ==> 0 <= i < p.len() && p[i] == '/',
    decreases p.len(),
{
    if p.len() > 0 && p.last() != '/' {
        lemma_last_slash(p.drop_last());
    }
}

/// The directory holding `p`, if `p` names one.
pub fn parent_of(p: &str) -> (r: Option<String>)
    ensures
        match r {
            Some(d) => parent_dir(p@) == Some(d@),
            None => parent_dir(p@) is None,
        },
{
    let v = to_chars(p);
    let mut n = v.len();
    assert(v@.subrange(0, n as int) == v@);
    while n > 0 && v[n - 1] != '/'
        invariant
            n <= v@.len(),
            last_slash(v@) == last_slash(v@.subrange(0, n as int)),
        decreases n,
    {
        assert(v@.subrange(0, n as int).drop_last() == v@.subrange(0, n - 1));
        n -= 1;
    }
    if n == 0 {
        None
    } else if n == 1 {
        Some(String::from_str("/"))
    } else {
        Some(slice_string(&v, 0, n - 1))
    }
}

/// Some file of `files` lies directly in `d`.
pub open spec fn holds_parent_of(files: Seq<String>, d: Seq<char>) -> bool {
    exists|f: int| 0 <= f < files.len() && parent_dir(#[trigger] files[f]@) == Some(d)
}

fn char_len(s: &String) -> (r: usize)
    ensures
        r == s@.len(),
{
    to_chars(s.as_str()).len()
}

/// The directories that an uninstall tries to remove once the files are gone: the
/// distinct parents of the files, longest path first, so that a directory comes
/// before the directories that hold it.
pub fn cleanup_dirs(files: &Vec<String>) -> (r: Vec<String>)
    ensures
        forall|x: int, y: int| 0 <= x < y < r@.len() ==> r@[x]@ != r@[y]@,
        forall|x: int, y: int| 0 <= x < y < r@.len() ==> r@[x]@.len() >= r@[y]@.len(),
        forall|x: int| 0 <= x < r@.len() ==> holds_parent_of(files@, #[trigger] r@[x]@),
        forall|f: int|
            0 <= f < files@.len() && parent_dir(#[trigger] files@[f]@) is Some ==> views(r@).contains(
                parent_dir(files@[f]@)->0,
            ),
{
    let mut out: Vec<String> = Vec::new();
    let ghost mut src: Seq<int> = Seq::empty();
    let mut k: usize = 0;
    while k < files.len()
        invariant
            k <= files@.len(),
            src.len() == out@.len(),
            forall|x: int|
                0 <= x < out@.len() ==> 0 <= #[trigger] src[x] < k && parent_dir(files@[src[x]]@)
                    == Some(out@[x]@),
            forall|x: int, y: int| 0 <= x < y < out@.len() ==> out@[x]@ != out@[y]@,
            forall|x: int, y: int| 0 <= x < y < out@.len() ==> out@[x]@.len() >= out@[y]@.len(),
            forall|f: int|
                0 <= f < k && parent_dir(#[trigger] files@[f]@) is Some ==> views(out@).contains(
                    parent_dir(files@[f]@)->0,
                ),
        decreases files@.len() - k,
    {
        let ghost old_out = out@;
        match parent_of(files[k].as_str()) {
            None => {},
            Some(p) => {
                if !holds(&out, &p) {
                    let plen = char_len(&p);
                    let mut j: usize = 0;
                    while j < out.len() && char_len(&out[j]) >= plen
                        invariant
                            j <= out@.len(),
                            out@ == old_out,
                            plen == p@.len(),
                            forall|x: int| 0 <= x < j ==> out@[x]@.len() >= plen,
                        decreases out@.len() - j,
                    {
                        j += 1;
                    }
                    let ghost pv = p@;
                    out.insert(j, p);
                    proof {
                        let old_src = src;
                        src = src.insert(j as int, k as int);
                        old_src.insert_ensures(j as int, k as int);
                        old_out.insert_ensures(j as int, out@[j as int]);
                        assert(out@ == old_out.insert(j as int, out@[j as int]));
                        assert(forall|x: int| j <= x < old_out.len() ==> old_out[x]@.len() < plen) by {
                            assert forall|x: int| j <= x < old_out.len() implies old_out[x]@.len() < plen by {
                                if x > j {
                                    assert(old_out[j as int]@.len() >= old_out[x]@.len());
                                }
                            }
                        }
                        assert forall|x: int, y: int| 0 <= x < y < out@.len() implies out@[x]@ != out@[y]@ && out@[x]@.len() >= out@[y]@.len() by {
                            if x < j && y < j {
                            } else if x < j && y == j {
                                assert(!views(old_out).contains(pv));
                                assert(views(old_out)[x] == old_out[x]@);
                            } else if x < j && y > j {
                                assert(out@[y] == old_out[y - 1]);
                            } else if x == j {
                                assert(out@[y] == old_out[y - 1]);
                                assert(!views(old_out).contains(pv));
                                assert(views(old_out)[y - 1] == old_out[y - 1]@);
                            } else {
                                assert(out@[x] == old_out[x - 1]);
                                assert(out@[y] == old_out[y - 1]);
                            }
                        }
                        assert forall|x: int| 0 <= x < out@.len() implies 0 <= #[trigger] src[x] < k + 1
                            && parent_dir(files@[src[x]]@) == Some(out@[x]@) by {
                            if x < j {
                                assert(out@[x] == old_out[x]);
                            } else if x > j {
                                assert(out@[x] == old_out[x - 1]);
                                assert(src[x] == old_src[x - 1]);
                            }
                        }
                        assert forall|f: int| 0 <= f < k + 1 && parent_dir(#[trigger] files@[f]@) is Some implies views(out@).contains(
                            parent_dir(files@[f]@)->0,
                        ) by {
                            if f < k {
                                let q = parent_dir(files@[f]@)->0;
                                let x = choose|x: int| 0 <= x < views(old_out).len() && views(old_out)[x] == q;
                                if x < j {
                                    assert(views(out@)[x] == q);
                                } else {
                                    assert(views(out@)[x + 1] == q);
                                }
                            } else {
                                assert(views(out@)[j as int] == pv);
                            }
                        }
                    }
                } else {
                    assert(views(out@).contains(p@));
                }
            },
        }
        k += 1;
    }
    assert forall|x: int| #![trigger out@[x]] 0 <= x < out@.len() implies exists|f: int|
        0 <= f < files@.len() && parent_dir(#[trigger] files@[f]@) == Some(out@[x]@) by {
        assert(parent_dir(files@[src[x]]@) == Some(out@[x]@));
    }
    assert forall|x: int| 0 <= x < out@.len() implies holds_parent_of(files@, #[trigger] out@[x]@) by {
        assert(parent_dir(files@[src[x]]@) == Some(out@[x]@));
    }
    out
}

} // verus!
