//! The two-layer package archive: container layout, and the rules that make
//! unpacking safe (path sanitization, entry-type whitelist, symlink checks).
use vstd::prelude::*;
use crate::arch::{arch_supported, supports_arch};
use crate::recipe::{parsed_recipe, PackageRecipe};
use crate::text::{join, opt_view, push_joined, push_str, split_bounds, split_char, slice_string, to_chars, views};

verus! {

/// Why an archive is refused.
#[derive(Debug, Clone, Copy, PartialEq, Eq, Structural)]
pub enum ArchiveError {
    /// A header, path or entry type that the format does not allow.
    Malformed,
    /// A path or link that would reach outside the destination.
    PathUnsafe,
    /// `package.cfg` is missing or lacks a required field.
    RecipeInvalid,
    /// The package declares no architecture that the host accepts.
    ArchUnsupported,
}

/// The type of an entry of the data tarball, as its header gives it.
#[derive(Debug, Clone, Copy, PartialEq, Eq, Structural)]
pub enum EntryKind {
    Directory,
    /// Regular, contiguous or sparse file.
    Regular,
    Symlink,
    /// Extended, global or long-name headers: carry no file.
    Metadata,
    HardLink,
    /// Block or character device, FIFO, or any other type.
    Special,
}

/// What already stands at an entry's destination.
#[derive(Debug, Clone, Copy, PartialEq, Eq, Structural)]
pub enum Existing {
    Missing,
    Directory,
    File,
    Symlink,
}

/// What to do on disk for an accepted entry.
#[derive(Debug, Clone, Copy, PartialEq, Eq, Structural)]
pub enum Action {
    MakeDir { mode: u32 },
    /// Write the file, first removing what stands there when `replace` holds.
    WriteFile { replace: bool, mode: u32 },
    MakeSymlink { replace: bool },
}

/// An entry that passed the checks that need no look at the disk.
pub struct EntryPlan {
    pub kind: EntryKind,
    /// The entry's path, normalized and relative.
    pub rel: String,
    /// Where it lands under the destination root.
    pub dest: String,
    /// Its parent directories under the destination root, shallowest first.
    pub parents: Vec<String>,
    /// The archived mode, low nine bits.
    pub mode: u32,
    /// The link target, for a symlink.
    pub target: String,
}

/// One unpack run: the destination and the symlinks it has created so far.
pub struct UnpackSession {
    pub dest_root: String,
    pub links: Vec<String>,
}

pub open spec fn is_trivial(c: Seq<char>) -> bool {
    c.len() == 0 || c == "."@
}

pub open spec fn keep_components(ps: Seq<Seq<char>>) -> Seq<Seq<char>>
    decreases ps.len(),
{
    if ps.len() == 0 {
        Seq::empty()
    } else {
        let r = keep_components(ps.drop_last());
        if is_trivial(ps.last()) {
            r
        } else {
            r.push(ps.last())
        }
    }
}

/// The components of a `/`-separated path, without empty and `.` components.
pub open spec fn components(p: Seq<char>) -> Seq<Seq<char>> {
    keep_components(split_char(p, '/'))
}

/// A path that stays below the directory it is resolved against: non-empty, not
/// absolute, no drive-style prefix, no `..` component.
pub open spec fn contained_path(p: Seq<char>) -> bool {
    let cs = components(p);
    &&& p.len() > 0
    &&& p[0] != '/'
    &&& cs.len() > 0
    &&& !(cs[0].len() >= 2 && cs[0][1] == ':')
    &&& forall|i: int| 0 <= i < cs.len() ==> cs[i] != ".."@
}

/// The normalized relative form of a path.
pub open spec fn rel_path(p: Seq<char>) -> Seq<char> {
    join(components(p), "/"@)
}

/// `rel` placed under `root`.
pub open spec fn under_root(root: Seq<char>, rel: Seq<char>) -> Seq<char> {
    if root.len() > 0 && root.last() == '/' {
        root + rel
    } else {
        root + "/"@ + rel
    }
}

/// The relative paths of the proper parents of `p`, shallowest first.
pub open spec fn parent_paths(p: Seq<char>) -> Seq<Seq<char>> {
    Seq::new(
        (components(p).len() - 1) as nat,
        |k: int| join(components(p).take(k + 1), "/"@),
    )
}

/// Some parent of `p` is a symlink that this session created.
pub open spec fn crosses_link(links: Seq<Seq<char>>, p: Seq<char>) -> bool {
    exists|k: int| 0 <= k < parent_paths(p).len() && links.contains(#[trigger] parent_paths(p)[k])
}

/// The verdict on an entry before the disk is consulted: `Ok(false)` to skip it,
/// `Ok(true)` to go on, or the error.
pub open spec fn entry_verdict(
    links: Seq<Seq<char>>,
    kind: EntryKind,
    path: Seq<char>,
    target: Option<Seq<char>>,
) -> Result<bool, ArchiveError> {
    if kind is Metadata {
        Ok(false)
    } else if kind is HardLink || kind is Special {
        Err(ArchiveError::Malformed)
    } else if components(path).len() == 0 {
        Err(ArchiveError::Malformed)
    } else if !contained_path(path) {
        Err(ArchiveError::PathUnsafe)
    } else if kind is Symlink && target is None {
        Err(ArchiveError::Malformed)
    } else if kind is Symlink && !contained_path(target->0) {
        Err(ArchiveError::PathUnsafe)
    } else if crosses_link(links, path) {
        Err(ArchiveError::PathUnsafe)
    } else {
        Ok(true)
    }
}

/// The verdict once the disk has been consulted.
pub open spec fn commit_verdict(
    root_is_slash: bool,
    kind: EntryKind,
    parent_link_on_disk: bool,
    existing: Existing,
    mode: u32,
) -> Result<Action, ArchiveError> {
    if !root_is_slash && parent_link_on_disk {
        Err(ArchiveError::PathUnsafe)
    } else if kind is Directory {
        if existing is Symlink {
            Err(ArchiveError::PathUnsafe)
        } else if existing is File {
            Err(ArchiveError::Malformed)
        } else {
            Ok(Action::MakeDir { mode })
        }
    } else if existing is Directory {
        Err(ArchiveError::Malformed)
    } else if kind is Regular {
        Ok(Action::WriteFile { replace: !(existing is Missing), mode })
    } else {
        Ok(Action::MakeSymlink { replace: !(existing is Missing) })
    }
}

fn dot_free_components(v: &Vec<char>) -> (r: Vec<String>)
    ensures
        views(r@) == components(v@),
{
    let n = v.len();
    assert(v@.subrange(0, n as int) == v@);
    let ghost pieces = split_char(v@, '/');
    let bounds = split_bounds(v, 0, n, '/');
    let dot = String::from_str(".");
    let mut out: Vec<String> = Vec::new();
    let mut k: usize = 0;
    while k < bounds.len()
        invariant
            n == v@.len(),
            k <= bounds@.len() == pieces.len(),
            pieces == split_char(v@, '/'),
            dot@ == "."@,
            forall|j: int|
                0 <= j < bounds@.len() ==> (#[trigger] bounds@[j]).0 <= bounds@[j].1 <= n
                    && v@.subrange(bounds@[j].0 as int, bounds@[j].1 as int) == pieces[j],
            views(out@) == keep_components(pieces.take(k as int)),
        decreases bounds@.len() - k,
    {
        let (a, b) = bounds[k];
        assert(bounds@[k as int] == (a, b));
        assert(pieces.take(k + 1).drop_last() == pieces.take(k as int));
        let c = slice_string(v, a, b);
        if a < b && !(c == dot) {
            let ghost before = out@;
            out.push(c);
            assert(out@.drop_last() == before);
            assert(views(out@) == views(before).push(c@));
        }
        k += 1;
    }
    assert(pieces.take(k as int) == pieces);
    out
}

/// The components of `p`, without empty and `.` components.
pub fn path_components(p: &str) -> (r: Vec<String>)
    ensures
        views(r@) == components(p@),
{
    let v = to_chars(p);
    dot_free_components(&v)
}

/// Whether `p` stays below the directory it is resolved against.
pub fn is_contained(p: &str) -> (r: bool)
    ensures
        r == contained_path(p@),
{
    let v = to_chars(p);
    let cs = dot_free_components(&v);
    if v.len() == 0 || v[0] == '/' || cs.len() == 0 {
        return false;
    }
    let first = to_chars(cs[0].as_str());
    assert(first@ == views(cs@)[0]);
    if first.len() >= 2 && first[1] == ':' {
        return false;
    }
    let dots = String::from_str("..");
    let mut i: usize = 0;
    while i < cs.len()
        invariant
            i <= cs@.len(),
            views(cs@) == components(p@),
            dots@ == ".."@,
            forall|j: int| 0 <= j < i ==> views(cs@)[j] != ".."@,
        decreases cs@.len() - i,
    {
        if cs[i] == dots {
            assert(views(cs@)[i as int] == ".."@);
            return false;
        }
        i += 1;
    }
    true
}

fn under_root_of(root: &String, rel: &String) -> (r: String)
    ensures
        r@ == under_root(root@, rel@),
{
    let rv = to_chars(root.as_str());
    let mut s = root.clone();
    if !(rv.len() > 0 && rv[rv.len() - 1] == '/') {
        push_str(&mut s, "/");
    }
    push_str(&mut s, rel.as_str());
    s
}

fn mask_mode(mode: u32) -> (r: u32)
    ensures
        r == mode % 512,
{
    assert((mode & 0x1ffu32) == mode % 512) by (bit_vector);
    mode & 0x1ff
}

impl UnpackSession {
    pub fn new(dest_root: &str) -> (r: Self)
        ensures
            r.dest_root@ == dest_root@,
            r.links@.len() == 0,
    {
        UnpackSession { dest_root: String::from_str(dest_root), links: Vec::new() }
    }

    /// Whether the destination is the live root, whose existing directories are trusted.
    pub fn root_is_slash(&self) -> (r: bool)
        ensures
            r == (self.dest_root@ == "/"@),
    {
        let slash = String::from_str("/");
        self.dest_root == slash
    }

    fn has_link(&self, p: &String) -> (r: bool)
        ensures
            r == views(self.links@).contains(p@),
    {
        let mut i: usize = 0;
        while i < self.links.len()
            invariant
                i <= self.links@.len(),
                forall|j: int| 0 <= j < i ==> views(self.links@)[j] != p@,
            decreases self.links@.len() - i,
        {
            if self.links[i] == *p {
                assert(views(self.links@)[i as int] == p@);
                return true;
            }
            i += 1;
        }
        false
    }

    /// Checks an entry of the data tarball against the rules that need no look at
    /// the disk. `Ok(None)`: a header that carries no file, to be skipped.
    pub fn plan_entry(&self, kind: EntryKind, path: &str, target: Option<&str>, mode: u32) -> (r:
        Result<Option<EntryPlan>, ArchiveError>)
        ensures
            (r is Err) == (entry_verdict(views(self.links@), kind, path@, opt_view(target)) is Err),
            r matches Err(e) ==> entry_verdict(views(self.links@), kind, path@, opt_view(target))
                == Err::<bool, ArchiveError>(e),
            (r matches Ok(None)) == (entry_verdict(views(self.links@), kind, path@, opt_view(target))
                == Ok::<bool, ArchiveError>(false)),
            r matches Ok(Some(plan)) ==> {
                &&& plan.kind == kind
                &&& plan.rel@ == rel_path(path@)
                &&& plan.dest@ == under_root(self.dest_root@, rel_path(path@))
                &&& views(plan.parents@) == parent_paths(path@).map_values(
                    |q: Seq<char>| under_root(self.dest_root@, q),
                )
                &&& plan.mode == mode % 512
                &&& (kind is Symlink ==> (target is Some && plan.target@ == target->0@))
            },
    {
        match kind {
            EntryKind::Metadata => {
                return Ok(None);
            },
            EntryKind::HardLink | EntryKind::Special => {
                return Err(ArchiveError::Malformed);
            },
            _ => {},
        }
        let v = to_chars(path);
        let cs = dot_free_components(&v);
        if cs.len() == 0 {
            return Err(ArchiveError::Malformed);
        }
        if !is_contained(path) {
            return Err(ArchiveError::PathUnsafe);
        }
        let mut link_target = String::new();
        if kind == EntryKind::Symlink {
            match target {
                None => {
                    return Err(ArchiveError::Malformed);
                },
                Some(t) => {
                    if !is_contained(t) {
                        return Err(ArchiveError::PathUnsafe);
                    }
                    link_target = String::from_str(t);
                },
            }
        }
        let ghost comps = components(path@);
        let ghost pp = parent_paths(path@);
        let mut prefix: Vec<String> = Vec::new();
        let mut parents: Vec<String> = Vec::new();
        let mut k: usize = 0;
        while k < cs.len() - 1
            invariant
                views(cs@) == comps,
                comps == components(path@),
                contained_path(path@),
                kind is Directory || kind is Regular || kind is Symlink,
                kind is Symlink ==> (target is Some && contained_path(target->0@)),
                pp == parent_paths(path@),
                k + 1 <= cs@.len(),
                views(prefix@) == comps.take(k as int),
                views(parents@) == pp.take(k as int).map_values(
                    |q: Seq<char>| under_root(self.dest_root@, q),
                ),
                forall|j: int| 0 <= j < k ==> !views(self.links@).contains(#[trigger] pp[j]),
            decreases cs@.len() - k,
        {
            let ghost before = prefix@;
            prefix.push(cs[k].clone());
            assert(prefix@.drop_last() == before);
            assert(views(prefix@) =~= views(before).push(cs@[k as int]@));
            assert(views(cs@)[k as int] == cs@[k as int]@);
            assert(views(prefix@) =~= comps.take(k + 1));
            let mut rel = String::new();
            push_joined(&mut rel, &prefix, "/");
            assert(rel@ == pp[k as int]);
            if self.has_link(&rel) {
                assert(views(self.links@).contains(pp[k as int]));
                assert(crosses_link(views(self.links@), path@));
                return Err(ArchiveError::PathUnsafe);
            }
            let ghost pbefore = parents@;
            parents.push(under_root_of(&self.dest_root, &rel));
            assert(parents@.drop_last() == pbefore);
            assert(views(parents@) =~= views(pbefore).push(under_root(self.dest_root@, rel@)));
            assert(views(parents@) =~= pp.take(k + 1).map_values(
                |q: Seq<char>| under_root(self.dest_root@, q),
            ));
            k += 1;
        }
        assert(pp.take(k as int) =~= pp);
        assert(!crosses_link(views(self.links@), path@));
        let mut rel = String::new();
        push_joined(&mut rel, &cs, "/");
        let dest = under_root_of(&self.dest_root, &rel);
        Ok(Some(EntryPlan { kind, rel, dest, parents, mode: mask_mode(mode), target: link_target }))
    }

    /// Settles an entry once the disk has been consulted: whether a parent of its
    /// destination is a symlink on disk, and what stands at the destination.
    /// A symlink that is accepted joins the session's links.
    pub fn commit_entry(
        &mut self,
        plan: &EntryPlan,
        parent_link_on_disk: bool,
        existing: Existing,
    ) -> (r: Result<Action, ArchiveError>)
        requires
            plan.kind is Directory || plan.kind is Regular || plan.kind is Symlink,
        ensures
            r == commit_verdict(
                old(self).dest_root@ == "/"@,
                plan.kind,
                parent_link_on_disk,
                existing,
                plan.mode,
            ),
            final(self).dest_root == old(self).dest_root,
            final(self).links@ == if r is Ok && plan.kind is Symlink {
                old(self).links@.push(plan.rel)
            } else {
                old(self).links@
            },
    {
        let root_is_slash = self.root_is_slash();
        if !root_is_slash && parent_link_on_disk {
            return Err(ArchiveError::PathUnsafe);
        }
        let replace = match existing {
            Existing::Missing => false,
            _ => true,
        };
        match plan.kind {
            EntryKind::Directory => match existing {
                Existing::Symlink => Err(ArchiveError::PathUnsafe),
                Existing::File => Err(ArchiveError::Malformed),
                _ => Ok(Action::MakeDir { mode: plan.mode }),
            },
            _ => {
                if existing == Existing::Directory {
                    Err(ArchiveError::Malformed)
                } else if plan.kind == EntryKind::Regular {
                    Ok(Action::WriteFile { replace, mode: plan.mode })
                } else {
                    self.links.push(plan.rel.clone());
                    Ok(Action::MakeSymlink { replace })
                }
            },
        }
    }
}

/// Unsafe entries never pass: a path with a `..` component or an absolute path, a
/// symlink whose target is absolute or holds `..`, an entry below a symlink that the
/// same unpack created, and a file or symlink over an existing directory are all
/// refused.
pub proof fn lemma_unsafe_entries_refused(
    links: Seq<Seq<char>>,
    kind: EntryKind,
    path: Seq<char>,
    target: Option<Seq<char>>,
    root_is_slash: bool,
    parent_link_on_disk: bool,
    mode: u32,
)
    requires
        kind is Directory || kind is Regular || kind is Symlink,
    ensures
        components(path).contains(".."@) ==> entry_verdict(links, kind, path, target) is Err,
        path.len() > 0 && path[0] == '/' ==> entry_verdict(links, kind, path, target) is Err,
        (kind is Symlink && target is Some && (components(target->0).contains(".."@) || (
            target->0.len() > 0 && target->0[0] == '/'))) ==> entry_verdict(links, kind, path, target) is Err,
        crosses_link(links, path) ==> entry_verdict(links, kind, path, target) is Err,
        !(kind is Directory) ==> commit_verdict(
            root_is_slash,
            kind,
            parent_link_on_disk,
            Existing::Directory,
            mode,
        ) is Err,
        !root_is_slash && parent_link_on_disk ==> commit_verdict(
            root_is_slash,
            kind,
            parent_link_on_disk,
            Existing::Missing,
            mode,
        ) is Err,
{
    if components(path).contains(".."@) {
        let i = choose|i: int| 0 <= i < components(path).len() && components(path)[i] == ".."@;
        assert(!contained_path(path));
    }
    if kind is Symlink && target is Some {
        let t = target->0;
        if components(t).contains(".."@) {
            let i = choose|i: int| 0 <= i < components(t).len() && components(t)[i] == ".."@;
            assert(!contained_path(t));
        }
    }
}

/// The container starts with the gzip magic bytes `1f 8b`.
pub fn is_gzip(head: &[u8]) -> (r: bool)
    ensures
        r == (head@.len() >= 2 && head@[0] == 0x1f && head@[1] == 0x8b),
{
    head.len() >= 2 && head[0] == 0x1f && head[1] == 0x8b
}

/// The members of the outer container, in order, are exactly `package.cfg` and
/// `data.tar.gz`.
pub fn check_layout(names: &Vec<String>) -> (r: Result<(), ArchiveError>)
    ensures
        r is Ok <==> views(names@) == seq!["package.cfg"@, "data.tar.gz"@],
        r matches Err(e) ==> e == ArchiveError::Malformed,
{
    let cfg = String::from_str("package.cfg");
    let data = String::from_str("data.tar.gz");
    if names.len() == 2 && names[0] == cfg && names[1] == data {
        assert(views(names@) =~= seq![cfg@, data@]);
        Ok(())
    } else {
        let ghost want = seq![cfg@, data@];
        assert(want.len() == 2 && want[0] == cfg@ && want[1] == data@);
        assert(names@.len() == 2 ==> views(names@)[0] == names@[0]@ && views(names@)[1]
            == names@[1]@);
        assert(views(names@) != want);
        Err(ArchiveError::Malformed)
    }
}

/// Reads the recipe out of the text of the `package.cfg` member, when one was found.
pub fn recipe_from_member(text: Option<&str>) -> (r: Result<PackageRecipe, ArchiveError>)
    ensures
        text is None ==> r == Err::<PackageRecipe, ArchiveError>(ArchiveError::Malformed),
        text matches Some(t) ==> {
            let p = parsed_recipe(t@);
            &&& t@.len() == 0 ==> r == Err::<PackageRecipe, ArchiveError>(ArchiveError::Malformed)
            &&& t@.len() > 0 ==> (r is Ok <==> p.name.len() > 0 && p.version.len() > 0)
            &&& t@.len() > 0 && r is Err ==> r == Err::<PackageRecipe, ArchiveError>(
                ArchiveError::RecipeInvalid,
            )
            &&& r matches Ok(rec) ==> rec@ == p
        },
{
    match text {
        None => Err(ArchiveError::Malformed),
        Some(t) => {
            if t.is_empty() {
                return Err(ArchiveError::Malformed);
            }
            match PackageRecipe::from_str(t) {
                Ok(rec) => Ok(rec),
                Err(_) => Err(ArchiveError::RecipeInvalid),
            }
        },
    }
}

/// Parses `package.cfg` and checks that the package may be installed on `host`;
/// this happens before anything is unpacked.
pub fn recipe_for_host(cfg: &str, host: &str) -> (r: Result<PackageRecipe, ArchiveError>)
    ensures
        ({
            let p = parsed_recipe(cfg@);
            &&& r is Ok <==> p.name.len() > 0 && p.version.len() > 0 && arch_supported(
                p.architectures,
                host@,
            )
            &&& r matches Err(e) ==> (e == ArchiveError::RecipeInvalid <==> !(p.name.len() > 0
                && p.version.len() > 0))
            &&& r matches Err(e) ==> (e == ArchiveError::RecipeInvalid || e
                == ArchiveError::ArchUnsupported)
            &&& r matches Ok(rec) ==> rec@ == p
        }),
{
    match PackageRecipe::from_str(cfg) {
        Err(_) => Err(ArchiveError::RecipeInvalid),
        Ok(rec) => {
            if supports_arch(&rec.package.architectures, host) {
                Ok(rec)
            } else {
                Err(ArchiveError::ArchUnsupported)
            }
        },
    }
}

/// The archive's file name: `<name>-<version>.nxpkg`.
pub fn package_file_name(recipe: &PackageRecipe) -> (r: String)
    ensures
        r@ == recipe.package.name@ + "-"@ + recipe.package.version@ + ".nxpkg"@,
{
    let mut s = recipe.package.name.clone();
    push_str(&mut s, "-");
    push_str(&mut s, recipe.package.version.as_str());
    push_str(&mut s, ".nxpkg");
    s
}

} // verus!
