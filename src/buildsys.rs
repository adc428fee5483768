//! Build systems: detection by file signature, selection, and the command
//! sequences that configure, build and install into a staging directory.
use vstd::prelude::*;
use crate::archive::components;
use crate::text::{push_joined, push_str, views};

verus! {

#[derive(Debug, Clone, Copy, PartialEq, Eq, Structural)]
pub enum BuildKind {
    Cargo,
    Meson,
    CMake,
    SCons,
    Make,
}

/// A phase of a build; a failure in `Install` is reported as an install failure,
/// one in any earlier phase as a build failure.
#[derive(Debug, Clone, Copy, PartialEq, Eq, Structural)]
pub enum Phase {
    Configure,
    Build,
    Install,
}

/// Per-package build settings: an optional forced build system and extra arguments.
#[derive(Debug, Clone)]
pub struct BuildProfile {
    pub name: String,
    pub build_system: Option<String>,
    pub configure_args: Vec<String>,
    pub build_args: Vec<String>,
    pub install_args: Vec<String>,
}

impl BuildProfile {
    pub fn new(name: &str) -> (r: Self)
        ensures
            r.name@ == name@,
            r.build_system is None,
            r.configure_args@.len() == 0,
            r.build_args@.len() == 0,
            r.install_args@.len() == 0,
    {
        BuildProfile {
            name: String::from_str(name),
            build_system: None,
            configure_args: Vec::new(),
            build_args: Vec::new(),
            install_args: Vec::new(),
        }
    }
}

/// A place in the source tree where a build system's signature file was found.
#[derive(Debug, Clone)]
pub struct Candidate {
    pub kind: BuildKind,
    /// The signature file's directory, relative to the source root.
    pub dir: String,
    /// How many directories below the source root it is.
    pub depth: usize,
}

/// One command of a build, run inside the sandbox.
#[derive(Debug, Clone)]
pub struct BuildCommand {
    pub phase: Phase,
    pub program: String,
    pub args: Vec<String>,
    pub cwd: Option<String>,
}

pub open spec fn kind_of_file(name: Seq<char>) -> Option<BuildKind> {
    if name == "Cargo.toml"@ {
        Some(BuildKind::Cargo)
    } else if name == "meson.build"@ {
        Some(BuildKind::Meson)
    } else if name == "CMakeLists.txt"@ {
        Some(BuildKind::CMake)
    } else if name == "SConstruct"@ || name == "SConscript"@ {
        Some(BuildKind::SCons)
    } else if name == "Makefile"@ || name == "makefile"@ || name == "GNUmakefile"@ {
        Some(BuildKind::Make)
    } else {
        None
    }
}

/// The build system whose signature file is named `name`.
pub fn kind_for_file(name: &str) -> (r: Option<BuildKind>)
    ensures
        r == kind_of_file(name@),
{
    let n = String::from_str(name);
    if n == String::from_str("Cargo.toml") {
        Some(BuildKind::Cargo)
    } else if n == String::from_str("meson.build") {
        Some(BuildKind::Meson)
    } else if n == String::from_str("CMakeLists.txt") {
        Some(BuildKind::CMake)
    } else if n == String::from_str("SConstruct") || n == String::from_str("SConscript") {
        Some(BuildKind::SCons)
    } else if n == String::from_str("Makefile") || n == String::from_str("makefile") || n
        == String::from_str("GNUmakefile") {
        Some(BuildKind::Make)
    } else {
        None
    }
}

/// The candidate that a file at relative path `p` contributes, if any.
pub open spec fn candidate_of(p: Seq<char>) -> Option<(BuildKind, Seq<char>, int)> {
    let cs = components(p);
    if cs.len() == 0 {
        None
    } else {
        match kind_of_file(cs.last()) {
            Some(k) => Some((k, crate::text::join(cs.drop_last(), "/"@), cs.len() - 1)),
            None => None,
        }
    }
}

pub open spec fn candidate_view(c: Candidate) -> (BuildKind, Seq<char>, int) {
    (c.kind, c.dir@, c.depth as int)
}

/// The candidates of a list of files, in the same order.
pub open spec fn candidates_spec(files: Seq<Seq<char>>) -> Seq<(BuildKind, Seq<char>, int)>
    decreases files.len(),
{
    if files.len() == 0 {
        Seq::empty()
    } else {
        let r = candidates_spec(files.drop_last());
        match candidate_of(files.last()) {
            Some(c) => r.push(c),
            None => r,
        }
    }
}

fn components_of(p: &str) -> (r: Vec<String>)
    ensures
        views(r@) == components(p@),
{
    crate::archive::path_components(p)
}

/// The build-system candidates among the regular files of a source tree, given by their
/// paths relative to its root, in walk order.
pub fn detect_candidates(files: &Vec<String>) -> (r: Vec<Candidate>)
    ensures
        r@.map_values(|c: Candidate| candidate_view(c)) == candidates_spec(views(files@)),
{
    let ghost fv = views(files@);
    let mut out: Vec<Candidate> = Vec::new();
    let mut i: usize = 0;
    while i < files.len()
        invariant
            i <= files@.len(),
            fv == views(files@),
            out@.map_values(|c: Candidate| candidate_view(c)) == candidates_spec(fv.take(i as int)),
        decreases files@.len() - i,
    {
        assert(fv.take(i + 1).drop_last() == fv.take(i as int));
        assert(fv.take(i + 1).last() == files@[i as int]@);
        let cs = components_of(files[i].as_str());
        if cs.len() > 0 {
            let last = cs.len() - 1;
            assert(views(cs@).last() == cs@[last as int]@);
            if let Some(k) = kind_for_file(cs[last].as_str()) {
                let mut parent: Vec<String> = Vec::new();
                let mut j: usize = 0;
                while j < last
                    invariant
                        j <= last < cs@.len(),
                        views(parent@) == views(cs@).take(j as int),
                    decreases last - j,
                {
                    let ghost before = parent@;
                    parent.push(cs[j].clone());
                    assert(parent@.drop_last() == before);
                    assert(views(parent@) =~= views(before).push(cs@[j as int]@));
                    assert(views(cs@)[j as int] == cs@[j as int]@);
                    assert(views(parent@) =~= views(cs@).take(j + 1));
                    j += 1;
                }
                assert(views(cs@).take(last as int) == views(cs@).drop_last());
                let mut dir = String::new();
                push_joined(&mut dir, &parent, "/");
                let c = Candidate { kind: k, dir, depth: last };
                let ghost before = out@;
                out.push(c);
                assert(out@.drop_last() == before);
                assert(out@.map_values(|c: Candidate| candidate_view(c)) =~= before.map_values(
                    |c: Candidate| candidate_view(c),
                ).push(candidate_view(c)));
            }
        }
        i += 1;
    }
    assert(fv.take(i as int) == fv);
    out
}

pub open spec fn priority(k: BuildKind) -> int {
    match k {
        BuildKind::Cargo => 0,
        BuildKind::Meson => 1,
        BuildKind::CMake => 2,
        BuildKind::SCons => 3,
        BuildKind::Make => 4,
    }
}

fn priority_of(k: BuildKind) -> (r: u8)
    ensures
        r as int == priority(k),
{
    match k {
        BuildKind::Cargo => 0,
        BuildKind::Meson => 1,
        BuildKind::CMake => 2,
        BuildKind::SCons => 3,
        BuildKind::Make => 4,
    }
}

/// A candidate that selection may pick under the preference.
pub open spec fn eligible(c: Candidate, preferred: Option<BuildKind>) -> bool {
    preferred is None || c.kind == preferred->0
}

/// `a` comes strictly before `b`: by depth alone under a preference, else by
/// (priority, depth).
pub open spec fn precedes(a: Candidate, b: Candidate, preferred: Option<BuildKind>) -> bool {
    if preferred is Some {
        a.depth < b.depth
    } else {
        priority(a.kind) < priority(b.kind) || (priority(a.kind) == priority(b.kind) && a.depth
            < b.depth)
    }
}

/// `i` is the selected candidate: eligible, preceded by no eligible candidate, and
/// the first among those that tie with it.
pub open spec fn is_selected(cands: Seq<Candidate>, preferred: Option<BuildKind>, i: int) -> bool {
    &&& 0 <= i < cands.len()
    &&& eligible(cands[i], preferred)
    &&& forall|j: int|
        0 <= j < cands.len() && eligible(#[trigger] cands[j], preferred) ==> !precedes(
            cands[j],
            cands[i],
            preferred,
        )
    &&& forall|j: int|
        0 <= j < i && eligible(#[trigger] cands[j], preferred) ==> precedes(
            cands[i],
            cands[j],
            preferred,
        )
}

fn precedes_exec(a: &Candidate, b: &Candidate, preferred: Option<BuildKind>) -> (r: bool)
    ensures
        r == precedes(*a, *b, preferred),
{
    if preferred.is_some() {
        a.depth < b.depth
    } else {
        let pa = priority_of(a.kind);
        let pb = priority_of(b.kind);
        pa < pb || (pa == pb && a.depth < b.depth)
    }
}

/// The position of the selected candidate, if any is eligible.
pub fn select_index(cands: &Vec<Candidate>, preferred: Option<BuildKind>) -> (r: Option<usize>)
    ensures
        r matches Some(i) ==> is_selected(cands@, preferred, i as int),
        r is None ==> forall|j: int| 0 <= j < cands@.len() ==> !eligible(#[trigger] cands@[j], preferred),
{
    let mut best: Option<usize> = None;
    let mut i: usize = 0;
    while i < cands.len()
        invariant
            i <= cands@.len(),
            best matches Some(b) ==> b < i && eligible(cands@[b as int], preferred)
                && (forall|j: int| 0 <= j < i && eligible(#[trigger] cands@[j], preferred) ==> !precedes(cands@[j], cands@[b as int], preferred))
                && (forall|j: int| 0 <= j < b && eligible(#[trigger] cands@[j], preferred) ==> precedes(cands@[b as int], cands@[j], preferred)),
            best is None ==> forall|j: int| 0 <= j < i ==> !eligible(#[trigger] cands@[j], preferred),
        decreases cands@.len() - i,
    {
        let ok = match preferred {
            None => true,
            Some(k) => cands[i].kind == k,
        };
        if ok {
            match best {
                None => {
                    best = Some(i);
                },
                Some(b) => {
                    if precedes_exec(&cands[i], &cands[b], preferred) {
                        best = Some(i);
                    }
                },
            }
        }
        i += 1;
    }
    best
}

/// The selected build system; with a preference and no candidate of that kind, one
/// rooted at the source root.
pub fn select_build_system(cands: &Vec<Candidate>, preferred: Option<BuildKind>) -> (r: Option<
    Candidate,
>)
    ensures
        r matches Some(c) ==> (exists|i: int| is_selected(cands@, preferred, i) && candidate_view(c) == candidate_view(cands@[i]))
            || (preferred == Some(c.kind) && c.dir@.len() == 0 && c.depth == 0 && forall|j: int|
            0 <= j < cands@.len() ==> !eligible(#[trigger] cands@[j], preferred)),
        r is None <==> preferred is None && cands@.len() == 0,
{
    match select_index(cands, preferred) {
        Some(i) => {
            let c = Candidate { kind: cands[i].kind, dir: cands[i].dir.clone(), depth: cands[i].depth };
            assert(candidate_view(c) == candidate_view(cands@[i as int]));
            Some(c)
        },
        None => match preferred {
            Some(k) => Some(Candidate { kind: k, dir: String::new(), depth: 0 }),
            None => {
                assert(cands@.len() > 0 ==> eligible(cands@[0], preferred));
                None
            },
        },
    }
}

pub open spec fn opt_string(o: Option<String>) -> Option<Seq<char>> {
    match o {
        Some(s) => Some(s@),
        None => None,
    }
}

/// A command as values: phase, program, arguments, working directory.
pub open spec fn command_view(c: BuildCommand) -> (Phase, Seq<char>, Seq<Seq<char>>, Option<Seq<char>>) {
    (c.phase, c.program@, views(c.args@), opt_string(c.cwd))
}

/// The commands for a build system, with `s` the source directory, `d` the staging
/// directory, `cfg`, `bld`, `inst` the profile's extra arguments, and `has_configure`
/// whether `s/configure` exists. The build directory is `s/build`.
pub open spec fn planned_commands(
    kind: BuildKind,
    s: Seq<char>,
    d: Seq<char>,
    cfg: Seq<Seq<char>>,
    bld: Seq<Seq<char>>,
    inst: Seq<Seq<char>>,
    has_configure: bool,
) -> Seq<(Phase, Seq<char>, Seq<Seq<char>>, Option<Seq<char>>)> {
    let b = s + "/build"@;
    match kind {
        BuildKind::Cargo => seq![
            (Phase::Build, "cargo"@, seq!["build"@, "--release"@] + bld, Some(s)),
            (Phase::Install, "cargo"@, seq!["install"@, "--path"@, s, "--root"@, d] + inst, Some(s)),
        ],
        BuildKind::Meson => seq![
            (Phase::Configure, "meson"@, seq!["setup"@, b, s, "--prefix=/usr"@] + cfg, None),
            (Phase::Build, "meson"@, seq!["compile"@, "-C"@, b] + bld, None),
            (Phase::Install, "meson"@, seq!["install"@, "-C"@, b, "--destdir"@, d] + inst, None),
        ],
        BuildKind::CMake => seq![
            (
                Phase::Configure,
                "cmake"@,
                seq![
                    "-S"@,
                    s,
                    "-B"@,
                    b,
                    "-DCMAKE_BUILD_TYPE=Release"@,
                    "-DCMAKE_INSTALL_PREFIX=/usr"@,
                ] + cfg,
                None,
            ),
            (
                Phase::Build,
                "cmake"@,
                seq!["--build"@, b] + if bld.len() > 0 {
                    seq!["--"@] + bld
                } else {
                    Seq::empty()
                },
                None,
            ),
            (
                Phase::Install,
                "env"@,
                seq!["DESTDIR="@ + d, "cmake"@, "--install"@, b, "--prefix"@, "/usr"@] + inst,
                None,
            ),
        ],
        BuildKind::SCons => seq![
            (Phase::Build, "scons"@, bld, Some(s)),
            (Phase::Install, "scons"@, seq!["install"@, "DESTDIR="@ + d, "PREFIX=/usr"@] + inst, Some(s)),
        ],
        BuildKind::Make => (if has_configure {
            seq![(Phase::Configure, "./configure"@, seq!["--prefix=/usr"@] + cfg, Some(s))]
        } else {
            Seq::empty()
        }) + seq![
            (Phase::Build, "make"@, bld, Some(s)),
            (Phase::Install, "make"@, seq!["install"@, "DESTDIR="@ + d, "PREFIX=/usr"@] + inst, Some(s)),
        ],
    }
}

fn lit(s: &str) -> (r: String)
    ensures
        r@ == s@,
{
    String::from_str(s)
}

fn concat(a: &str, b: &String) -> (r: String)
    ensures
        r@ == a@ + b@,
{
    let mut s = String::from_str(a);
    push_str(&mut s, b.as_str());
    s
}

fn command(phase: Phase, program: &str, fixed: Vec<String>, extra: &Vec<String>, cwd: Option<&String>) -> (r: BuildCommand)
    ensures
        command_view(r) == (phase, program@, views(fixed@) + views(extra@), match cwd {
            Some(c) => Some(c@),
            None => None,
        }),
{
    let mut args = fixed;
    let ghost start = args@;
    let mut i: usize = 0;
    while i < extra.len()
        invariant
            i <= extra@.len(),
            views(args@) == views(start) + views(extra@).take(i as int),
        decreases extra@.len() - i,
    {
        let ghost before = args@;
        args.push(extra[i].clone());
        assert(args@.drop_last() == before);
        assert(views(args@) =~= views(before).push(extra@[i as int]@));
        assert(views(extra@)[i as int] == extra@[i as int]@);
        assert(views(extra@).take(i + 1) =~= views(extra@).take(i as int).push(extra@[i as int]@));
        i += 1;
    }
    assert(views(extra@).take(i as int) == views(extra@));
    let cwd = match cwd {
        Some(c) => Some(c.clone()),
        None => None,
    };
    BuildCommand { phase, program: lit(program), args, cwd }
}

/// The commands that configure, build and install a source tree of kind `kind` at `src`
/// (inside the sandbox) into the staging directory `staging`, in order.
pub fn build_commands(
    kind: BuildKind,
    src: &String,
    staging: &String,
    profile: &BuildProfile,
    has_configure: bool,
) -> (r: Vec<BuildCommand>)
    ensures
        r@.map_values(|c: BuildCommand| command_view(c)) == planned_commands(
            kind,
            src@,
            staging@,
            views(profile.configure_args@),
            views(profile.build_args@),
            views(profile.install_args@),
            has_configure,
        ),
{
    let mut b = src.clone();
    push_str(&mut b, "/build");
    let ghost sv = src@;
    let ghost dv = staging@;
    let ghost bv = b@;
    let ghost cfg = views(profile.configure_args@);
    let ghost bld = views(profile.build_args@);
    let ghost inst = views(profile.install_args@);
    let empty: Vec<String> = Vec::new();
    let mut out: Vec<BuildCommand> = Vec::new();
    match kind {
        BuildKind::Cargo => {
            let f1 = vec![lit("build"), lit("--release")];
            assert(views(f1@) =~= seq!["build"@, "--release"@]);
            out.push(command(Phase::Build, "cargo", f1, &profile.build_args, Some(src)));
            let f2 = vec![lit("install"), lit("--path"), src.clone(), lit("--root"), staging.clone()];
            assert(views(f2@) =~= seq!["install"@, "--path"@, sv, "--root"@, dv]);
            out.push(command(Phase::Install, "cargo", f2, &profile.install_args, Some(src)));
        },
        BuildKind::Meson => {
            let f1 = vec![lit("setup"), b.clone(), src.clone(), lit("--prefix=/usr")];
            assert(views(f1@) =~= seq!["setup"@, bv, sv, "--prefix=/usr"@]);
            out.push(command(Phase::Configure, "meson", f1, &profile.configure_args, None));
            let f2 = vec![lit("compile"), lit("-C"), b.clone()];
            assert(views(f2@) =~= seq!["compile"@, "-C"@, bv]);
            out.push(command(Phase::Build, "meson", f2, &profile.build_args, None));
            let f3 = vec![lit("install"), lit("-C"), b.clone(), lit("--destdir"), staging.clone()];
            assert(views(f3@) =~= seq!["install"@, "-C"@, bv, "--destdir"@, dv]);
            out.push(command(Phase::Install, "meson", f3, &profile.install_args, None));
        },
        BuildKind::CMake => {
            let f1 = vec![
                lit("-S"),
                src.clone(),
                lit("-B"),
                b.clone(),
                lit("-DCMAKE_BUILD_TYPE=Release"),
                lit("-DCMAKE_INSTALL_PREFIX=/usr"),
            ];
            assert(views(f1@) =~= seq![
                "-S"@,
                sv,
                "-B"@,
                bv,
                "-DCMAKE_BUILD_TYPE=Release"@,
                "-DCMAKE_INSTALL_PREFIX=/usr"@,
            ]);
            out.push(command(Phase::Configure, "cmake", f1, &profile.configure_args, None));
            if profile.build_args.len() > 0 {
                let f2 = vec![lit("--build"), b.clone(), lit("--")];
                assert(views(f2@) + bld =~= seq!["--build"@, bv] + (seq!["--"@] + bld));
                out.push(command(Phase::Build, "cmake", f2, &profile.build_args, None));
            } else {
                let f2 = vec![lit("--build"), b.clone()];
                assert(views(f2@) + views(empty@) =~= seq!["--build"@, bv] + Seq::<Seq<char>>::empty());
                out.push(command(Phase::Build, "cmake", f2, &empty, None));
            }
            let f3 = vec![
                concat("DESTDIR=", staging),
                lit("cmake"),
                lit("--install"),
                b.clone(),
                lit("--prefix"),
                lit("/usr"),
            ];
            assert(views(f3@) =~= seq!["DESTDIR="@ + dv, "cmake"@, "--install"@, bv, "--prefix"@, "/usr"@]);
            out.push(command(Phase::Install, "env", f3, &profile.install_args, None));
        },
        BuildKind::SCons => {
            out.push(command(Phase::Build, "scons", Vec::new(), &profile.build_args, Some(src)));
            assert(views(Seq::<String>::empty()) + bld =~= bld);
            let f2 = vec![lit("install"), concat("DESTDIR=", staging), lit("PREFIX=/usr")];
            assert(views(f2@) =~= seq!["install"@, "DESTDIR="@ + dv, "PREFIX=/usr"@]);
            out.push(command(Phase::Install, "scons", f2, &profile.install_args, Some(src)));
        },
        BuildKind::Make => {
            if has_configure {
                let f0 = vec![lit("--prefix=/usr")];
                assert(views(f0@) =~= seq!["--prefix=/usr"@]);
                out.push(command(Phase::Configure, "./configure", f0, &profile.configure_args, Some(src)));
            }
            out.push(command(Phase::Build, "make", Vec::new(), &profile.build_args, Some(src)));
            assert(views(Seq::<String>::empty()) + bld =~= bld);
            let f2 = vec![lit("install"), concat("DESTDIR=", staging), lit("PREFIX=/usr")];
            assert(views(f2@) =~= seq!["install"@, "DESTDIR="@ + dv, "PREFIX=/usr"@]);
            out.push(command(Phase::Install, "make", f2, &profile.install_args, Some(src)));
        },
    }
    assert(out@.map_values(|c: BuildCommand| command_view(c)) =~= planned_commands(
        kind,
        src@,
        staging@,
        views(profile.configure_args@),
        views(profile.build_args@),
        views(profile.install_args@),
        has_configure,
    ));
    out
}

} // verus!
