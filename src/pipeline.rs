//! The build pipeline's decisions: its stages, how a step's exit status is judged,
//! the package version and the package name when none is given.
use vstd::prelude::*;
use crate::buildsys::{command_view, BuildCommand, Phase};
use crate::recipe::{BuildInfo, InstallInfo, PackageInfo, PackageRecipe, RecipeView};
use crate::text::{
    join, push_joined, views, contains_str, find_char, first_at, has_sub, lemma_first_at_unique, lower_of, lowercase,
    push_str, range_eq, slice_string, split_bounds, split_char, to_chars, trim, trim_bounds,
};

verus! {

/// The stages of a build, in order; any failure goes straight to `CleanedUp`.
#[derive(Debug, Clone, Copy, PartialEq, Eq, Structural)]
pub enum Stage {
    Selected,
    Cloned,
    Prepared,
    Moved,
    Detected,
    Configured,
    Built,
    Installed,
    Packaged,
    CleanedUp,
}

/// How a build fails.
#[derive(Debug, Clone, Copy, PartialEq, Eq, Structural)]
pub enum BuildFailure {
    BuildFailed,
    InstallFailed,
}

pub open spec fn successor(s: Stage) -> Stage {
    match s {
        Stage::Selected => Stage::Cloned,
        Stage::Cloned => Stage::Prepared,
        Stage::Prepared => Stage::Moved,
        Stage::Moved => Stage::Detected,
        Stage::Detected => Stage::Configured,
        Stage::Configured => Stage::Built,
        Stage::Built => Stage::Installed,
        Stage::Installed => Stage::Packaged,
        Stage::Packaged => Stage::CleanedUp,
        Stage::CleanedUp => Stage::CleanedUp,
    }
}

/// The stage after `s`, given whether the work of `s` succeeded. Cleanup is reached
/// on every path.
pub fn next_stage(s: Stage, ok: bool) -> (r: Stage)
    ensures
        r == if ok { successor(s) } else { Stage::CleanedUp },
{
    if !ok {
        return Stage::CleanedUp;
    }
    match s {
        Stage::Selected => Stage::Cloned,
        Stage::Cloned => Stage::Prepared,
        Stage::Prepared => Stage::Moved,
        Stage::Moved => Stage::Detected,
        Stage::Detected => Stage::Configured,
        Stage::Configured => Stage::Built,
        Stage::Built => Stage::Installed,
        Stage::Installed => Stage::Packaged,
        Stage::Packaged => Stage::CleanedUp,
        Stage::CleanedUp => Stage::CleanedUp,
    }
}

/// The judgement on a build command that exited with `code`: none when it succeeded.
pub fn step_verdict(phase: Phase, code: i32) -> (r: Option<BuildFailure>)
    ensures
        code == 0 ==> r is None,
        code != 0 && phase is Install ==> r == Some(BuildFailure::InstallFailed),
        code != 0 && !(phase is Install) ==> r == Some(BuildFailure::BuildFailed),
{
    if code == 0 {
        None
    } else if phase == Phase::Install {
        Some(BuildFailure::InstallFailed)
    } else {
        Some(BuildFailure::BuildFailed)
    }
}

/// A TOML string value without its surrounding double quotes.
pub open spec fn unquote(v: Seq<char>) -> Seq<char> {
    if v.len() >= 2 && v[0] == '"' && v.last() == '"' {
        v.subrange(1, v.len() - 1)
    } else {
        v
    }
}

/// One line of `Cargo.toml`, read in the state (current table, version so far).
pub open spec fn manifest_line(st: (Seq<char>, Option<Seq<char>>), line: Seq<char>) -> (
    Seq<char>,
    Option<Seq<char>>,
) {
    let l = trim(line);
    if l.len() == 0 || l[0] == '#' {
        st
    } else if l[0] == '[' && l.last() == ']' {
        (trim(l.subrange(1, l.len() - 1)), st.1)
    } else if exists|i: int| first_at(l, '=', i) {
        let i = choose|i: int| first_at(l, '=', i);
        if st.0 == "package"@ && trim(l.subrange(0, i)) == "version"@ {
            (st.0, Some(unquote(trim(l.subrange(i + 1, l.len() as int)))))
        } else {
            st
        }
    } else {
        st
    }
}

pub open spec fn manifest_lines(ls: Seq<Seq<char>>) -> (Seq<char>, Option<Seq<char>>)
    decreases ls.len(),
{
    if ls.len() == 0 {
        (Seq::empty(), None)
    } else {
        manifest_line(manifest_lines(ls.drop_last()), ls.last())
    }
}

/// The `[package]` version that a `Cargo.toml` text declares.
pub open spec fn manifest_version(text: Seq<char>) -> Option<Seq<char>> {
    manifest_lines(split_char(text, '\n')).1
}

/// Reads `version` under `[package]` from the text of a `Cargo.toml`.
pub fn cargo_manifest_version(text: &str) -> (r: Option<String>)
    ensures
        match r {
            Some(v) => manifest_version(text@) == Some(v@),
            None => manifest_version(text@) is None,
        },
{
    let chars = to_chars(text);
    let n = chars.len();
    assert(chars@.subrange(0, n as int) == text@);
    let ghost ls = split_char(text@, '\n');
    let lines = split_bounds(&chars, 0, n, '\n');
    let k_package = to_chars("package");
    let k_version = to_chars("version");
    let mut sa: usize = 0;
    let mut sb: usize = 0;
    let mut version: Option<String> = None;
    let mut k: usize = 0;
    while k < lines.len()
        invariant
            n == chars@.len(),
            ls == split_char(text@, '\n'),
            lines@.len() == ls.len(),
            forall|j: int|
                0 <= j < lines@.len() ==> (#[trigger] lines@[j]).0 <= lines@[j].1 <= n
                    && chars@.subrange(lines@[j].0 as int, lines@[j].1 as int) == ls[j],
            k <= lines@.len(),
            sa <= sb <= n,
            k_package@ == "package"@,
            k_version@ == "version"@,
            manifest_lines(ls.take(k as int)) == (chars@.subrange(sa as int, sb as int), match version {
                Some(v) => Some(v@),
                None => None,
            }),
        decreases lines@.len() - k,
    {
        let (a, b) = lines[k];
        assert(lines@[k as int] == (a, b));
        assert(ls.take(k + 1).drop_last() == ls.take(k as int));
        assert(ls.take(k + 1).last() == ls[k as int]);
        let ghost l = trim(ls[k as int]);
        let (ta, tb) = trim_bounds(&chars, a, b);
        if ta == tb || chars[ta] == '#' {
        } else if chars[ta] == '[' && chars[tb - 1] == ']' {
            assert(l.subrange(1, l.len() - 1) == chars@.subrange(ta + 1, tb - 1));
            let (na, nb) = trim_bounds(&chars, ta + 1, tb - 1);
            sa = na;
            sb = nb;
        } else {
            match find_char(&chars, ta, tb, '=') {
                None => {
                    assert forall|i: int| !first_at(l, '=', i) by {
                        if 0 <= i < l.len() {
                            assert(l[i] == chars@[ta + i]);
                        }
                    }
                },
                Some(e) => {
                    let ghost i = e - ta;
                    assert(first_at(l, '=', i));
                    assert forall|j: int| first_at(l, '=', j) implies j == i by {
                        lemma_first_at_unique(l, '=', i, j);
                    }
                    assert(l.subrange(0, i) == chars@.subrange(ta as int, e as int));
                    assert(l.subrange(i + 1, l.len() as int) == chars@.subrange(e + 1, tb as int));
                    let (ka, kb) = trim_bounds(&chars, ta, e);
                    if range_eq(&chars, sa, sb, &k_package) && range_eq(&chars, ka, kb, &k_version) {
                        let (va, vb) = trim_bounds(&chars, e + 1, tb);
                        let ghost v = chars@.subrange(va as int, vb as int);
                        if vb - va >= 2 && chars[va] == '"' && chars[vb - 1] == '"' {
                            assert(v.subrange(1, v.len() - 1) == chars@.subrange(va + 1, vb - 1));
                            version = Some(slice_string(&chars, va + 1, vb - 1));
                        } else {
                            version = Some(slice_string(&chars, va, vb));
                        }
                    }
                },
            }
        }
        k += 1;
    }
    assert(ls.take(k as int) == ls);
    version
}

/// The version of a package built from source: the one given, else the `Cargo.toml`
/// version, else what `git describe` printed (trimmed, when not empty), else `0.0.0`.
pub open spec fn resolved_version(
    explicit: Option<Seq<char>>,
    manifest: Option<Seq<char>>,
    describe: Option<Seq<char>>,
) -> Seq<char> {
    if explicit is Some {
        explicit->0
    } else if manifest is Some && manifest_version(manifest->0) is Some {
        manifest_version(manifest->0)->0
    } else if describe is Some && trim(describe->0).len() > 0 {
        trim(describe->0)
    } else {
        "0.0.0"@
    }
}

pub fn resolve_version(explicit: Option<&str>, manifest: Option<&str>, describe: Option<&str>) -> (r:
    String)
    ensures
        r@ == resolved_version(
            crate::text::opt_view(explicit),
            crate::text::opt_view(manifest),
            crate::text::opt_view(describe),
        ),
{
    if let Some(e) = explicit {
        return String::from_str(e);
    }
    if let Some(m) = manifest {
        if let Some(v) = cargo_manifest_version(m) {
            return v;
        }
    }
    if let Some(d) = describe {
        let v = to_chars(d);
        let (a, b) = trim_bounds(&v, 0, v.len());
        assert(v@.subrange(0, v@.len() as int) == d@);
        if a < b {
            return slice_string(&v, a, b);
        }
    }
    String::from_str("0.0.0")
}

/// The package name for a source folder whose lower-cased name is `lowered`.
pub open spec fn derived_name(lowered: Seq<char>, arch: Seq<char>) -> Option<Seq<char>> {
    if has_sub(lowered, "mesa"@) {
        Some("mesa-"@ + arch)
    } else if lowered == "linux"@ || has_sub(lowered, "kernel"@) {
        Some("linux-"@ + arch)
    } else {
        None
    }
}

/// The package name for a source folder, from its lower-cased name.
pub fn package_name_for(lowered: &str, arch: &str) -> (r: Option<String>)
    ensures
        match r {
            Some(n) => derived_name(lowered@, arch@) == Some(n@),
            None => derived_name(lowered@, arch@) is None,
        },
{
    if contains_str(lowered, "mesa") {
        let mut s = String::from_str("mesa-");
        push_str(&mut s, arch);
        Some(s)
    } else if String::from_str(lowered) == String::from_str("linux") || contains_str(
        lowered,
        "kernel",
    ) {
        let mut s = String::from_str("linux-");
        push_str(&mut s, arch);
        Some(s)
    } else {
        None
    }
}

/// The package name for the source folder `folder` on architecture `arch`, when the
/// folder's name gives one.
pub fn derive_package_name(folder: &str, arch: &str) -> (r: Option<String>)
    ensures
        match r {
            Some(n) => derived_name(lower_of(folder@), arch@) == Some(n@),
            None => derived_name(lower_of(folder@), arch@) is None,
        },
{
    let l = lowercase(folder);
    package_name_for(l.as_str(), arch)
}

/// The phase of build commands that a stage runs: configure commands in `Detected`,
/// build commands in `Configured`, install commands in `Built`.
pub open spec fn stage_phase(s: Stage) -> Option<Phase> {
    match s {
        Stage::Detected => Some(Phase::Configure),
        Stage::Configured => Some(Phase::Build),
        Stage::Built => Some(Phase::Install),
        _ => None,
    }
}

pub fn phase_for_stage(s: Stage) -> (r: Option<Phase>)
    ensures
        r == stage_phase(s),
{
    match s {
        Stage::Detected => Some(Phase::Configure),
        Stage::Configured => Some(Phase::Build),
        Stage::Built => Some(Phase::Install),
        _ => None,
    }
}

/// A command as the recipe logs it: the program, then its arguments, space-separated.
pub open spec fn command_line(program: Seq<char>, args: Seq<Seq<char>>) -> Seq<char> {
    if args.len() == 0 {
        program
    } else {
        program + " "@ + join(args, " "@)
    }
}

pub open spec fn command_lines(cmds: Seq<BuildCommand>) -> Seq<Seq<char>> {
    cmds.map_values(|c: BuildCommand| command_line(command_view(c).1, command_view(c).2))
}

fn command_line_of(c: &BuildCommand) -> (r: String)
    ensures
        r@ == command_line(command_view(*c).1, command_view(*c).2),
{
    let mut s = c.program.clone();
    if c.args.len() > 0 {
        push_str(&mut s, " ");
        push_joined(&mut s, &c.args, " ");
    }
    s
}

/// The recipe written into a package built from source: its name and version, the
/// host architecture, and the build commands as a log.
pub fn packaged_recipe(name: &str, version: &str, arch: &str, commands: &Vec<BuildCommand>) -> (r:
    PackageRecipe)
    ensures
        r@ == (RecipeView {
            name: name@,
            version: version@,
            architectures: seq![arch@],
            dependencies: Seq::empty(),
            commands: command_lines(commands@),
            install_params: Seq::empty(),
            installed_files: Seq::empty(),
        }),
{
    let mut lines: Vec<String> = Vec::new();
    let mut i: usize = 0;
    while i < commands.len()
        invariant
            i <= commands@.len(),
            views(lines@) == command_lines(commands@.take(i as int)),
        decreases commands@.len() - i,
    {
        let ghost before = lines@;
        let l = command_line_of(&commands[i]);
        lines.push(l);
        assert(lines@.drop_last() == before);
        assert(views(lines@) =~= views(before).push(l@));
        assert(commands@.take(i + 1) =~= commands@.take(i as int).push(commands@[i as int]));
        assert(command_lines(commands@.take(i + 1)) =~= command_lines(commands@.take(i as int)).push(
            command_line(command_view(commands@[i as int]).1, command_view(commands@[i as int]).2),
        ));
        assert(views(lines@) =~= command_lines(commands@.take(i + 1)));
        i += 1;
    }
    assert(commands@.take(i as int) == commands@);
    let mut archs: Vec<String> = Vec::new();
    archs.push(String::from_str(arch));
    let r = PackageRecipe {
        package: PackageInfo { name: String::from_str(name), version: String::from_str(version), architectures: archs },
        build: BuildInfo { dependencies: Vec::new(), commands: lines },
        install: InstallInfo { install_params: Vec::new(), installed_files: Vec::new() },
    };
    assert(views(r.package.architectures@) =~= seq![arch@]);
    assert(views(Seq::<String>::empty()) =~= Seq::<Seq<char>>::empty());
    r
}

} // verus!
