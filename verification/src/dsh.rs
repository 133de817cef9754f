//! Resolving the dsh runtime on disk and planning the commands that launch it.
//!
//! The harness is the npm package `@deepseek-ai/dsh`; this crate never vendors it.
//! Every filesystem question goes through a caller-supplied probe, so each result
//! below is stated in terms of what the probe answered.

use vstd::prelude::*;
use vstd::string::*;
use crate::json::{
    bundle_entries, json_bundles, json_dependencies, json_document, json_parse_error, json_pretty,
    json_rest, json_str,
    json_string_field, json_string_field_of, parse_json, pretty_json, remove_bundle, remove_dependency,
};
use crate::path::{
    file_seen, fixed_disk, is_file, lemma_fixed_disk_seen, no_file_seen, EntryKind, NativePath,
    PathView,
};
use crate::text::{
    chars_of, contains, contains_of, find_char, lower, lower_of, push_chars, push_str,
    split_once, split_once_of, starts_with, string_of,
};

verus! {

/// Published package this shell launches.
pub const DSH_PACKAGE: &'static str = "@deepseek-ai/dsh";

/// Pinned first-install spec.
pub const DSH_PACKAGE_SPEC: &'static str = "@deepseek-ai/dsh@0.1.0-rc.7";

/// Whether this OS can spawn Node/dsh at all (`os` as in `std::env::consts::OS`).
pub fn can_launch_local(os: &str) -> (r: bool)
    ensures
        r == (os@ != "android"@ && os@ != "ios"@),
{
    let v = chars_of(os);
    !crate::text::is_text(&v, "android") && !crate::text::is_text(&v, "ios")
}

/// Name of the Node executable on `os`.
pub open spec fn node_name(os: Seq<char>) -> Seq<char> {
    if os == "windows"@ {
        "node.exe"@
    } else {
        "node"@
    }
}

fn node_bin_name(os: &str) -> (r: &'static str)
    ensures
        r@ == node_name(os@),
{
    if crate::text::is_text(&chars_of(os), "windows") {
        "node.exe"
    } else {
        "node"
    }
}

/// `<prefix>/node_modules/@deepseek-ai/dsh/lib/bin.js`.
pub open spec fn bin_under(prefix: PathView) -> PathView {
    prefix.join("node_modules"@).join("@deepseek-ai"@).join("dsh"@).join("lib"@).join("bin.js"@)
}

/// The dsh entry script below an npm prefix.
pub fn dsh_bin_under(prefix: &NativePath) -> (r: NativePath)
    ensures
        r@ == bin_under(prefix@),
{
    prefix.join("node_modules").join("@deepseek-ai").join("dsh").join("lib").join("bin.js")
}

/// `<app_data>/dsh-runtime`.
pub open spec fn prefix_of(app_data: PathView) -> PathView {
    app_data.join("dsh-runtime"@)
}

/// App-data directory that holds the managed npm prefix.
pub fn runtime_prefix(app_data: &NativePath) -> (r: NativePath)
    ensures
        r@ == prefix_of(app_data@),
{
    app_data.join("dsh-runtime")
}

/// What `managed_bin` answers for `prefix`: the entry script below it exactly when
/// the probe found it as a file.
pub open spec fn managed_bin_answer<P: Fn(&NativePath) -> EntryKind>(probe: P, prefix: PathView, r: Option<NativePath>) -> bool {
    match r {
        Some(b) => b@ == bin_under(prefix) && file_seen(probe, b@),
        None => no_file_seen(probe, bin_under(prefix)),
    }
}

/// node .../lib/bin.js for a managed install, when present.
pub fn managed_bin<P: Fn(&NativePath) -> EntryKind>(prefix: &NativePath, probe: &P) -> (r: Option<NativePath>)
    requires
        forall|q: &NativePath| probe.requires((q,)),
    ensures
        managed_bin_answer(*probe, prefix@, r),
{
    let bin = dsh_bin_under(prefix);
    if is_file(&bin, probe) {
        Some(bin)
    } else {
        None
    }
}

/// The bundled Node executable below an installer root.
pub open spec fn bundled_node(root: PathView, os: Seq<char>) -> PathView {
    root.join("runtime"@).join("node"@).join(node_name(os))
}

/// The bundled dsh entry script below an installer root.
pub open spec fn bundled_bin(root: PathView) -> PathView {
    bin_under(root.join("runtime"@).join("dsh"@))
}

/// A probe found both bundled files below `root`.
pub open spec fn bundle_seen<P: Fn(&NativePath) -> EntryKind>(probe: P, root: PathView, os: Seq<char>) -> bool {
    file_seen(probe, bundled_node(root, os)) && file_seen(probe, bundled_bin(root))
}

/// A probe found one of the bundled files below `root` missing.
pub open spec fn bundle_missing<P: Fn(&NativePath) -> EntryKind>(probe: P, root: PathView, os: Seq<char>) -> bool {
    no_file_seen(probe, bundled_node(root, os)) || no_file_seen(probe, bundled_bin(root))
}

/// Bundled Node + `@deepseek-ai/dsh` shipped inside the installer.
pub fn bundled_runtime<P: Fn(&NativePath) -> EntryKind>(root: &NativePath, os: &str, probe: &P) -> (r: Option<(NativePath, NativePath)>)
    requires
        forall|q: &NativePath| probe.requires((q,)),
    ensures
        match r {
            Some((n, b)) => n@ == bundled_node(root@, os@) && b@ == bundled_bin(root@) && bundle_seen(*probe, root@, os@),
            None => bundle_missing(*probe, root@, os@),
        },
{
    let node = root.join("runtime").join("node").join(node_bin_name(os));
    let bin = dsh_bin_under(&root.join("runtime").join("dsh"));
    if is_file(&node, probe) && is_file(&bin, probe) {
        Some((node, bin))
    } else {
        None
    }
}

/// The views of a list of paths.
pub open spec fn views(s: Seq<NativePath>) -> Seq<PathView> {
    s.map_values(|p: NativePath| p@)
}

/// Where a bundled runtime may live: each hint, then its `src-tauri` directory.
pub open spec fn runtime_roots(hints: Seq<PathView>) -> Seq<PathView> {
    Seq::new(2 * hints.len(), |j: int| if j % 2 == 0 { hints[j / 2] } else { hints[j / 2].join("src-tauri"@) })
}

/// `roots[k]` is the first root where a probe found the bundled runtime.
pub open spec fn first_bundle<P: Fn(&NativePath) -> EntryKind>(probe: P, roots: Seq<PathView>, os: Seq<char>, k: int) -> bool {
    &&& 0 <= k < roots.len()
    &&& bundle_seen(probe, roots[k], os)
    &&& forall|j: int| 0 <= j < k ==> bundle_missing(probe, #[trigger] roots[j], os)
}

/// What `find_bundled_runtime` answers below `roots`: Node and the entry script of the
/// first root where the probes found both, or nothing when every root lacks one.
pub open spec fn bundle_answer<P: Fn(&NativePath) -> EntryKind>(
    probe: P,
    roots: Seq<PathView>,
    os: Seq<char>,
    r: Option<(NativePath, NativePath)>,
) -> bool {
    match r {
        Some((n, b)) => exists|k: int| #[trigger] first_bundle(probe, roots, os, k)
            && n@ == bundled_node(roots[k], os)
            && b@ == bundled_bin(roots[k]),
        None => forall|j: int| 0 <= j < roots.len() ==> bundle_missing(probe, #[trigger] roots[j], os),
    }
}

/// Search resource dir, then src-tauri/, then the given roots.
pub fn find_bundled_runtime<P: Fn(&NativePath) -> EntryKind>(hints: &[NativePath], os: &str, probe: &P) -> (r: Option<(NativePath, NativePath)>)
    requires
        forall|q: &NativePath| probe.requires((q,)),
    ensures
        bundle_answer(*probe, runtime_roots(views(hints@)), os@, r),
{
    let ghost roots = runtime_roots(views(hints@));
    let mut i: usize = 0;
    while i < hints.len()
        invariant
            i <= hints.len(),
            roots == runtime_roots(views(hints@)),
            forall|q: &NativePath| probe.requires((q,)),
            forall|j: int| 0 <= j < 2 * i ==> bundle_missing(*probe, #[trigger] roots[j], os@),
        decreases hints.len() - i,
    {
        assert(roots[2 * i as int] == hints@[i as int]@);
        assert(roots[2 * i + 1] == hints@[i as int]@.join("src-tauri"@));
        if let Some(found) = bundled_runtime(&hints[i], os, probe) {
            assert(first_bundle(*probe, roots, os@, 2 * i as int));
            return Some(found);
        }
        let nested = hints[i].join("src-tauri");
        if let Some(found) = bundled_runtime(&nested, os, probe) {
            assert forall|j: int| 0 <= j < 2 * i + 1 implies bundle_missing(*probe, #[trigger] roots[j], os@) by {
                if j == 2 * i {
                }
            }
            assert(first_bundle(*probe, roots, os@, 2 * i + 1));
            return Some(found);
        }
        assert forall|j: int| 0 <= j < 2 * (i + 1) implies bundle_missing(*probe, #[trigger] roots[j], os@) by {
            if j == 2 * i || j == 2 * i + 1 {
            }
        }
        i += 1;
    }
    None
}

} // verus!

verus! {

/// `Path::parent` applied `n` times.
pub open spec fn ancestor(p: PathView, n: nat) -> Option<PathView>
    decreases n,
{
    if n == 0 {
        Some(p)
    } else {
        match p.parent() {
            Some(q) => ancestor(q, (n - 1) as nat),
            None => None,
        }
    }
}

/// `runtime/dsh` for `.../node_modules/@deepseek-ai/dsh/lib/bin.js`.
pub fn npm_prefix_from_bin(bin: &NativePath) -> (r: Option<NativePath>)
    ensures
        match r {
            Some(p) => ancestor(bin@, 5) == Some(p@),
            None => ancestor(bin@, 5) is None,
        },
{
    let p1 = match bin.parent() { Some(p) => p, None => return None };
    let p2 = match p1.parent() { Some(p) => p, None => return None };
    let p3 = match p2.parent() { Some(p) => p, None => return None };
    let p4 = match p3.parent() { Some(p) => p, None => return None };
    let p5 = match p4.parent() { Some(p) => p, None => return None };
    proof {
        assert(ancestor(p5@, 0) == Some(p5@));
        assert(ancestor(p4@, 1) == Some(p5@));
        assert(ancestor(p3@, 2) == Some(p5@));
        assert(ancestor(p2@, 3) == Some(p5@));
        assert(ancestor(p1@, 4) == Some(p5@));
    }
    Some(p5)
}

/// Going up `n` times drops the last `n` names of a path, keeping its root; a path
/// with fewer names has no such ancestor. So `npm_prefix_from_bin` answers `None`
/// exactly when the entry script's path has fewer than five names.
pub proof fn law_ancestor_drops_names(p: PathView, n: nat)
    ensures
        ancestor(p, n) == if p.parts.len() >= n {
            Some(PathView { root: p.root, parts: p.parts.subrange(0, p.parts.len() - n), sep: p.sep })
        } else {
            None
        },
    decreases n,
{
    if n > 0 && p.parts.len() > 0 {
        let q = PathView { root: p.root, parts: p.parts.drop_last(), sep: p.sep };
        law_ancestor_drops_names(q, (n - 1) as nat);
        if p.parts.len() >= n {
            assert(q.parts.subrange(0, q.parts.len() - (n - 1)) =~= p.parts.subrange(0, p.parts.len() - n));
        }
    } else if n == 0 {
        assert(p.parts.subrange(0, p.parts.len() as int) =~= p.parts);
    }
}

proof fn lemma_parent_of_join(p: PathView, name: Seq<char>)
    ensures
        p.join(name).parent() == Some(p),
{
    assert(p.parts.push(name).drop_last() =~= p.parts);
}

/// The npm prefix read back from the entry script below it is that prefix.
pub proof fn law_prefix_of_bin_under(prefix: PathView)
    ensures
        ancestor(bin_under(prefix), 5) == Some(prefix),
{
    let a = prefix.join("node_modules"@);
    let b = a.join("@deepseek-ai"@);
    let c = b.join("dsh"@);
    let d = c.join("lib"@);
    let e = d.join("bin.js"@);
    lemma_parent_of_join(prefix, "node_modules"@);
    lemma_parent_of_join(a, "@deepseek-ai"@);
    lemma_parent_of_join(b, "dsh"@);
    lemma_parent_of_join(c, "lib"@);
    lemma_parent_of_join(d, "bin.js"@);
    assert(ancestor(prefix, 0) == Some(prefix));
    assert(ancestor(a, 1) == Some(prefix));
    assert(ancestor(b, 2) == Some(prefix));
    assert(ancestor(c, 3) == Some(prefix));
    assert(ancestor(d, 4) == Some(prefix));
}

/// Environment variables as texts.
pub open spec fn pairs_view(v: Seq<(String, String)>) -> Seq<(Seq<char>, Seq<char>)> {
    v.map_values(|e: (String, String)| (e.0@, e.1@))
}

/// `<app_data>/dsh-home`.
pub open spec fn home_of(app_data: PathView) -> PathView {
    app_data.join("dsh-home"@)
}

/// `DSH_HOME` for a launch.
pub open spec fn home_vars(app_data: PathView) -> Seq<(Seq<char>, Seq<char>)> {
    seq![("DSH_HOME"@, home_of(app_data).text())]
}

/// `DSH_HOME`, then the npm prefix and its `node_modules` for packaged launches.
pub open spec fn packaged_vars(app_data: PathView, prefix: PathView) -> Seq<(Seq<char>, Seq<char>)> {
    home_vars(app_data) + seq![
        ("DSH_DESKTOP_PREFIX"@, prefix.text()),
        ("NODE_PATH"@, prefix.join("node_modules"@).text()),
    ]
}

fn var(name: &str, value: String) -> (r: (String, String))
    ensures
        r.0@ == name@,
        r.1@ == value@,
{
    (String::from_str(name), value)
}

fn home_env(app_data: &NativePath) -> (r: Vec<(String, String)>)
    ensures
        pairs_view(r@) == home_vars(app_data@),
{
    let home = app_data.join("dsh-home");
    let mut env: Vec<(String, String)> = Vec::new();
    env.push(var("DSH_HOME", home.text()));
    assert(pairs_view(env@) =~= home_vars(app_data@));
    env
}

/// The step that links `<home>/node_modules` to the prefix ran for `home` and `prefix`.
pub open spec fn link_ran<L: Fn(&NativePath, &NativePath)>(link: L, home: PathView, prefix: PathView) -> bool {
    exists|h: NativePath, q: NativePath| #![trigger call_ensures(link, (&h, &q), ())]
        h@ == home && q@ == prefix && call_ensures(link, (&h, &q), ())
}

/// Environment for a packaged launch; first lets `link` make the installation's
/// `node_modules` visible from `DSH_HOME` (best effort, as the caller sees fit).
fn packaged_env<L: Fn(&NativePath, &NativePath)>(app_data: &NativePath, prefix: &NativePath, link: &L) -> (r: Vec<(String, String)>)
    requires
        forall|a: &NativePath, b: &NativePath| link.requires((a, b)),
    ensures
        pairs_view(r@) == packaged_vars(app_data@, prefix@),
        link_ran(*link, home_of(app_data@), prefix@),
{
    let home = app_data.join("dsh-home");
    link(&home, prefix);
    assert(call_ensures(*link, (&home, prefix), ()));
    let mut env = home_env(app_data);
    env.push(var("DSH_DESKTOP_PREFIX", prefix.text()));
    env.push(var("NODE_PATH", prefix.join("node_modules").text()));
    assert(pairs_view(env@) =~= packaged_vars(app_data@, prefix@));
    env
}

/// Where the module-resolution hook may live: below each hint, then below its
/// `src-tauri` directory.
pub open spec fn hook_candidates(hints: Seq<PathView>) -> Seq<PathView> {
    Seq::new(
        2 * hints.len(),
        |j: int|
            if j % 2 == 0 {
                hints[j / 2].join("hooks"@).join("resolve-register.mjs"@)
            } else {
                hints[j / 2].join("src-tauri"@).join("hooks"@).join("resolve-register.mjs"@)
            },
    )
}

/// `cands[k]` is the first candidate where a probe found a regular file.
pub open spec fn first_file<P: Fn(&NativePath) -> EntryKind>(probe: P, cands: Seq<PathView>, k: int) -> bool {
    &&& 0 <= k < cands.len()
    &&& file_seen(probe, cands[k])
    &&& forall|j: int| 0 <= j < k ==> no_file_seen(probe, #[trigger] cands[j])
}

/// A probe found no regular file at any candidate.
pub open spec fn no_file_among<P: Fn(&NativePath) -> EntryKind>(probe: P, cands: Seq<PathView>) -> bool {
    forall|j: int| 0 <= j < cands.len() ==> no_file_seen(probe, #[trigger] cands[j])
}

/// What `find_resolve_hook` may return after its probes.
pub open spec fn hook_found<P: Fn(&NativePath) -> EntryKind>(probe: P, hints: Seq<PathView>, r: Option<PathView>) -> bool {
    match r {
        Some(h) => exists|k: int| #[trigger] first_file(probe, hook_candidates(hints), k) && h == hook_candidates(hints)[k],
        None => no_file_among(probe, hook_candidates(hints)),
    }
}

/// `Option<NativePath>` taken by its view.
pub open spec fn opt_path(o: Option<NativePath>) -> Option<PathView> {
    match o {
        Some(p) => Some(p@),
        None => None,
    }
}

fn find_resolve_hook<P: Fn(&NativePath) -> EntryKind>(hints: &[NativePath], probe: &P) -> (r: Option<NativePath>)
    requires
        forall|q: &NativePath| probe.requires((q,)),
    ensures
        hook_found(*probe, views(hints@), opt_path(r)),
{
    let ghost cands = hook_candidates(views(hints@));
    let mut i: usize = 0;
    while i < hints.len()
        invariant
            i <= hints.len(),
            cands == hook_candidates(views(hints@)),
            forall|q: &NativePath| probe.requires((q,)),
            forall|j: int| 0 <= j < 2 * i ==> no_file_seen(*probe, #[trigger] cands[j]),
        decreases hints.len() - i,
    {
        let first = hints[i].join("hooks").join("resolve-register.mjs");
        assert(first@ == cands[2 * i as int]);
        if is_file(&first, probe) {
            assert(first_file(*probe, cands, 2 * i as int));
            return Some(first);
        }
        let second = hints[i].join("src-tauri").join("hooks").join("resolve-register.mjs");
        assert(second@ == cands[2 * i + 1]);
        if is_file(&second, probe) {
            assert forall|j: int| 0 <= j < 2 * i + 1 implies no_file_seen(*probe, #[trigger] cands[j]) by {
                if j == 2 * i {
                }
            }
            assert(first_file(*probe, cands, 2 * i + 1));
            return Some(second);
        }
        assert forall|j: int| 0 <= j < 2 * (i + 1) implies no_file_seen(*probe, #[trigger] cands[j]) by {
            if j == 2 * i || j == 2 * i + 1 {
            }
        }
        i += 1;
    }
    None
}

/// `<dir>/pnpm-workspace.yaml`.
pub open spec fn workspace_file(dir: PathView) -> PathView {
    dir.join("pnpm-workspace.yaml"@)
}

/// `<dir>/apps/cli`.
pub open spec fn cli_dir(dir: PathView) -> PathView {
    dir.join("apps"@).join("cli"@)
}

/// What the probes said about a candidate checkout `dir`.
pub open spec fn checkout_seen<P: Fn(&NativePath) -> EntryKind>(probe: P, dir: PathView, yes: bool) -> bool {
    if yes {
        file_seen(probe, workspace_file(dir)) && crate::path::dir_seen(probe, cli_dir(dir))
    } else {
        no_file_seen(probe, workspace_file(dir)) || crate::path::no_dir_seen(probe, cli_dir(dir))
    }
}

fn is_dsh_checkout<P: Fn(&NativePath) -> EntryKind>(dir: &NativePath, probe: &P) -> (r: bool)
    requires
        forall|q: &NativePath| probe.requires((q,)),
    ensures
        checkout_seen(*probe, dir@, r),
{
    is_file(&dir.join("pnpm-workspace.yaml"), probe) && crate::path::is_dir(&dir.join("apps").join("cli"), probe)
}

/// Resolve an official deepseek-harness checkout only when one is named explicitly
/// (`DSH_CHECKOUT`). Nearby clones are not used automatically: `pnpm dsh web` from
/// source can sit in a first compile for minutes and never print a ready line in time.
/// What `find_checkout` answers for `explicit`: nothing without an explicit checkout;
/// otherwise that checkout exactly when the probes showed it to be one.
pub open spec fn checkout_answer<P: Fn(&NativePath) -> EntryKind>(probe: P, explicit: Option<NativePath>, r: Option<NativePath>) -> bool {
    match explicit {
        None => r is None,
        Some(e) => match r {
            Some(c) => c@ == e@ && checkout_seen(probe, e@, true),
            None => checkout_seen(probe, e@, false),
        },
    }
}

pub fn find_checkout<P: Fn(&NativePath) -> EntryKind>(explicit: Option<NativePath>, probe: &P) -> (r: Option<NativePath>)
    requires
        forall|q: &NativePath| probe.requires((q,)),
    ensures
        checkout_answer(*probe, explicit, r),
{
    match explicit {
        None => None,
        Some(path) => {
            if is_dsh_checkout(&path, probe) {
                Some(path)
            } else {
                None
            }
        },
    }
}

/// Some call of `which` with a name spelled `name` answered `out`.
pub open spec fn which_said<W: Fn(&str) -> Option<NativePath>>(which: W, name: Seq<char>, out: Option<PathView>) -> bool {
    exists|s: &str, o: Option<NativePath>| #![trigger call_ensures(which, (s,), o)]
        s@ == name && call_ensures(which, (s,), o) && opt_path(o) == out
}

/// The first of two executable names that `which` located, in that order.
pub open spec fn which_first<W: Fn(&str) -> Option<NativePath>>(which: W, a: Seq<char>, b: Seq<char>, r: Option<PathView>) -> bool {
    match r {
        Some(p) => which_said(which, a, Some(p)) || (which_said(which, a, None) && which_said(which, b, Some(p))),
        None => which_said(which, a, None) && which_said(which, b, None),
    }
}

fn which_of<W: Fn(&str) -> Option<NativePath>>(which: &W, name: &str) -> (r: Option<NativePath>)
    requires
        forall|s: &str| which.requires((s,)),
    ensures
        which_said(*which, name@, opt_path(r)),
{
    let r = which(name);
    assert(call_ensures(*which, (name,), r));
    r
}

fn which_either<W: Fn(&str) -> Option<NativePath>>(which: &W, a: &str, b: &str) -> (r: Option<NativePath>)
    requires
        forall|s: &str| which.requires((s,)),
    ensures
        which_first(*which, a@, b@, opt_path(r)),
{
    match which_of(which, a) {
        Some(p) => Some(p),
        None => which_of(which, b),
    }
}

/// Locate npm / npm.cmd through `which` (a `PATH` lookup).
pub fn find_npm<W: Fn(&str) -> Option<NativePath>>(which: &W) -> (r: Option<NativePath>)
    requires
        forall|s: &str| which.requires((s,)),
    ensures
        which_first(*which, "npm.cmd"@, "npm"@, opt_path(r)),
{
    which_either(which, "npm.cmd", "npm")
}

/// What `find_node` may return: the explicit executable when a probe found it,
/// else `node`, then `node.exe`, located through `which`.
pub open spec fn node_found<P: Fn(&NativePath) -> EntryKind, W: Fn(&str) -> Option<NativePath>>(
    probe: P,
    which: W,
    explicit: Option<PathView>,
    r: Option<PathView>,
) -> bool {
    match explicit {
        Some(e) if file_seen(probe, e) && r == Some(e) => true,
        _ => (match explicit {
            Some(e) => no_file_seen(probe, e),
            None => true,
        }) && which_first(which, "node"@, "node.exe"@, r),
    }
}

/// Locate a Node executable: the explicit one (`DSH_DESKTOP_NODE`) when it is a
/// file, else `node` / `node.exe` on `PATH`.
pub fn find_node<P: Fn(&NativePath) -> EntryKind, W: Fn(&str) -> Option<NativePath>>(
    explicit: Option<NativePath>,
    probe: &P,
    which: &W,
) -> (r: Option<NativePath>)
    requires
        forall|q: &NativePath| probe.requires((q,)),
        forall|s: &str| which.requires((s,)),
    ensures
        node_found(*probe, *which, opt_path(explicit), opt_path(r)),
{
    if let Some(path) = explicit {
        if is_file(&path, probe) {
            return Some(path);
        }
    }
    which_either(which, "node", "node.exe")
}

} // verus!

verus! {

/// Tauri's resource dir is often `\\?\D:\...`, which Node rejects as `file:////?/D:/`:
/// on Windows (`\` separator) the verbatim prefix is dropped from the root.
pub open spec fn normalized(p: PathView) -> PathView {
    if p.sep == '\\' && starts_with(p.root, "\\\\?\\UNC\\"@) {
        PathView { root: "\\\\"@ + p.root.subrange(8, p.root.len() as int), parts: p.parts, sep: p.sep }
    } else if p.sep == '\\' && starts_with(p.root, "\\\\?\\"@) {
        PathView { root: p.root.subrange(4, p.root.len() as int), parts: p.parts, sep: p.sep }
    } else {
        p
    }
}

fn normalize_os_path(path: &NativePath) -> (r: NativePath)
    ensures
        r@ == normalized(path@),
{
    if path.sep == '\\' {
        let root = chars_of(path.root.as_str());
        proof { reveal_strlit("\\\\?\\UNC\\"); reveal_strlit("\\\\?\\"); reveal_strlit("\\\\"); }
        if crate::text::starts_with_of(&root, &chars_of("\\\\?\\UNC\\")) {
            let mut r: Vec<char> = Vec::new();
            push_str(&mut r, "\\\\");
            push_chars(&mut r, &crate::text::slice_of(&root, 8, root.len()));
            return NativePath { root: string_of(&r), parts: path.parts.clone(), sep: path.sep };
        }
        if crate::text::starts_with_of(&root, &chars_of("\\\\?\\")) {
            let r = crate::text::slice_of(&root, 4, root.len());
            return NativePath { root: string_of(&r), parts: path.parts.clone(), sep: path.sep };
        }
    }
    NativePath { root: path.root.clone(), parts: path.parts.clone(), sep: path.sep }
}

/// `url::Url::from_file_path` on the path spelled `text`, serialized, on a platform
/// whose path separator (`std::path::MAIN_SEPARATOR`) is `sep`; `None` where the crate
/// refuses the path. The crate builds `file://` and then each name of the path after
/// its root, percent-encoded, with Unix and Windows rules that differ; both read the
/// path as the platform's `Path` does, so the separator is part of the name.
pub uninterp spec fn file_url_under(sep: char, text: Seq<char>) -> Option<Seq<char>>;

/// `url::Url::from_file_path` on the path spelled `text`, serialized with
/// `String::from(Url)`, beside the platform's path separator. Every URL it builds
/// starts with `file://`; the rest is named, not described.
#[verifier::external_body]
fn url_from_file_path(text: &str) -> (r: (char, Result<String, ()>))
    ensures
        match r.1 {
            Ok(u) => file_url_under(r.0, text@) == Some(u@) && starts_with(u@, "file://"@),
            Err(()) => file_url_under(r.0, text@) is None,
        },
{
    (std::path::MAIN_SEPARATOR, url::Url::from_file_path(std::path::Path::new(text)).map(String::from))
}

/// `s` with every `\` replaced by `/`.
pub open spec fn forward_slashes(s: Seq<char>) -> Seq<char> {
    Seq::new(s.len(), |i: int| if s[i] == '\\' { '/' } else { s[i] })
}

/// The URL written by hand when the `url` crate refuses a path.
pub open spec fn fallback_file_url(text: Seq<char>) -> Seq<char> {
    let raw = forward_slashes(text);
    if raw.len() > 0 && raw[0] == '/' {
        "file://"@ + raw
    } else {
        "file:///"@ + raw
    }
}

/// The file URL of a path, given what `url::Url::from_file_path` answered for its text.
pub fn file_url_from(outcome: Result<String, ()>, text: &str) -> (r: String)
    ensures
        r@ == match outcome {
            Ok(u) => u@,
            Err(()) => fallback_file_url(text@),
        },
{
    match outcome {
        Ok(u) => u,
        Err(()) => {
            let t = chars_of(text);
            let mut raw: Vec<char> = Vec::new();
            let mut i: usize = 0;
            while i < t.len()
                invariant
                    i <= t.len(),
                    raw@ == forward_slashes(t@).subrange(0, i as int),
                decreases t.len() - i,
            {
                raw.push(if t[i] == '\\' { '/' } else { t[i] });
                proof {
                    assert(raw@ =~= forward_slashes(t@).subrange(0, i + 1));
                }
                i += 1;
            }
            assert(raw@ =~= forward_slashes(t@));
            let mut out: Vec<char> = Vec::new();
            if raw.len() > 0 && raw[0] == '/' {
                push_str(&mut out, "file://");
            } else {
                push_str(&mut out, "file:///");
            }
            push_chars(&mut out, &raw);
            string_of(&out)
        },
    }
}

/// The file URL of the path spelled `text` on a platform whose separator is `sep`:
/// what `url::Url::from_file_path` builds, or the fallback written by hand where the
/// crate refuses the path.
pub open spec fn file_url_text(sep: char, text: Seq<char>) -> Seq<char> {
    match file_url_under(sep, text) {
        Some(u) => u,
        None => fallback_file_url(text),
    }
}

/// `url` is the file URL of `path`, once normalized, on the platform the crate runs on.
pub open spec fn file_url_of(url: Seq<char>, path: PathView) -> bool {
    exists|sep: char| #[trigger] file_url_text(sep, normalized(path).text()) == url
}

/// The `file://` URL Node is given for a path (`--import <url>`): what the `url` crate
/// builds from the path's text once normalized, or the fallback for that text.
fn path_to_file_url(path: &NativePath) -> (r: String)
    ensures
        starts_with(r@, "file://"@),
        file_url_of(r@, path@),
{
    let text = normalize_os_path(path).text();
    let (sep, outcome) = url_from_file_path(text.as_str());
    proof { reveal_strlit("file://"); reveal_strlit("file:///"); }
    let r = file_url_from(outcome, text.as_str());
    assert(file_url_text(sep, normalized(path@).text()) == r@);
    proof {
        if r@ != outcome->Ok_0@ || outcome is Err {
            let raw = forward_slashes(text@);
            if raw.len() > 0 && raw[0] == '/' {
                assert(("file://"@ + raw).subrange(0, 7) =~= "file://"@);
            } else {
                assert(("file:///"@ + raw).subrange(0, 7) =~= "file://"@);
            }
        }
    }
    r
}

/// The texts of a list of strings.
pub open spec fn texts(v: Seq<String>) -> Seq<Seq<char>> {
    v.map_values(|s: String| s@)
}

/// Arguments for `node [--import <hook url>] <bin> <cli...>`.
pub open spec fn node_args_ok(args: Seq<Seq<char>>, bin: PathView, hook: Option<PathView>, cli: Seq<Seq<char>>) -> bool {
    match hook {
        Some(h) => {
            &&& args.len() == cli.len() + 3
            &&& args[0] == "--import"@
            &&& starts_with(args[1], "file://"@)
            &&& file_url_of(args[1], h)
            &&& args[2] == bin.text()
            &&& args.subrange(3, args.len() as int) == cli
        },
        None => args == seq![bin.text()] + cli,
    }
}

fn node_cli_args(bin: &NativePath, hook: Option<&NativePath>, cli: &[String]) -> (r: Vec<String>)
    ensures
        node_args_ok(texts(r@), bin@, match hook { Some(h) => Some(h@), None => None }, texts(cli@)),
{
    let mut args: Vec<String> = Vec::new();
    let ghost mut hook_url: Seq<char> = Seq::empty();
    if let Some(hook) = hook {
        args.push(String::from_str("--import"));
        let url = path_to_file_url(hook);
        proof { hook_url = url@; }
        args.push(url);
    }
    let ghost start: int = args@.len() as int;
    args.push(bin.text());
    let ghost head = texts(args@);
    assert(head.subrange(0, start + 1) =~= head);
    let mut i: usize = 0;
    while i < cli.len()
        invariant
            i <= cli.len(),
            0 <= start,
            args@.len() == start + 1 + i,
            texts(args@).subrange(start + 1, args@.len() as int) == texts(cli@).subrange(0, i as int),
            texts(args@).subrange(0, start + 1) == head,
        decreases cli.len() - i,
    {
        let ghost before = args@;
        args.push(cli[i].clone());
        proof {
            assert(texts(args@).subrange(start + 1, args@.len() as int) =~= texts(cli@).subrange(0, i + 1));
            assert(texts(args@).subrange(0, start + 1) =~= texts(before).subrange(0, start + 1));
        }
        i += 1;
    }
    proof {
        assert(texts(cli@).subrange(0, cli@.len() as int) =~= texts(cli@));
        match hook {
            Some(h) => {
                assert(head[0] == "--import"@);
                assert(texts(args@)[0] == texts(args@).subrange(0, start + 1)[0]);
                assert(texts(args@)[1] == texts(args@).subrange(0, start + 1)[1]);
                assert(texts(args@)[2] == texts(args@).subrange(0, start + 1)[2]);
                assert(texts(args@).subrange(3, args@.len() as int) =~= texts(args@).subrange(start + 1, args@.len() as int));
                assert(texts(args@).len() == texts(cli@).len() + 3);
                assert(texts(args@)[0] == "--import"@);
                assert(starts_with(texts(args@)[1], "file://"@));
                assert(texts(args@)[1] == hook_url);
                let sep = choose|sep: char| #[trigger] file_url_text(sep, normalized(h@).text()) == hook_url;
                assert(file_url_text(sep, normalized(h@).text()) == texts(args@)[1]);
                assert(file_url_of(texts(args@)[1], h@));
                assert(texts(args@)[2] == bin@.text());
                assert(texts(args@).subrange(3, args@.len() as int) == texts(cli@));
            },
            None => {
                assert(start == 0);
                assert(head[0] == bin@.text());
                assert(head =~= seq![bin@.text()]);
                assert(texts(args@) =~= texts(args@).subrange(0, start + 1) + texts(args@).subrange(start + 1, args@.len() as int));
            },
        }
    }
    args
}

} // verus!

verus! {

/// First-launch plugins installed into the official `web` profile: (label, spec).
pub const STARTER_PLUGINS: [(&'static str, &'static str); 4] = [
    ("dsh-web-ui", "github:zhu1090093659/dsh-web-ui"),
    ("Transparent UI", "github:WYH66666666/DSH-Transparent-UI-Plugin"),
    ("better-sidebar", "github:omdsh-dev/DSH-better-sidebar"),
    ("dsh-visualize", "github:Nagi-ovo/dsh-visualize"),
];

/// npm package names that `dsh plugin add` writes into the profile, in the order of
/// `STARTER_PLUGINS`. GitHub specs install as these names, then the loader imports
/// them as bundles from the profile `package.json`.
pub const STARTER_PLUGIN_PACKAGES: [&'static str; 4] = [
    "dsh-web-ui",
    "@deepseek-ai/dsh-client-ui-aqua",
    "dsh-better-sidebar",
    "@dsh-external/dsh-visualize",
];

/// The starter package names as texts.
pub open spec fn starter_packages() -> Seq<Seq<char>> {
    seq![
        "dsh-web-ui"@,
        "@deepseek-ai/dsh-client-ui-aqua"@,
        "dsh-better-sidebar"@,
        "@dsh-external/dsh-visualize"@,
    ]
}

/// Whether `name` is one of `STARTER_PLUGIN_PACKAGES`.
pub fn is_starter_package(name: &Vec<char>) -> (r: bool)
    ensures
        r == starter_packages().contains(name@),
{
    let mut i: usize = 0;
    while i < 4
        invariant
            i <= 4,
            forall|j: int| 0 <= j < i ==> starter_packages()[j] != name@,
        decreases 4 - i,
    {
        if crate::text::is_text(name, STARTER_PLUGIN_PACKAGES[i]) {
            proof {
                assert(STARTER_PLUGIN_PACKAGES@[i as int]@ == starter_packages()[i as int]);
            }
            return true;
        }
        proof {
            assert(STARTER_PLUGIN_PACKAGES@[i as int]@ == starter_packages()[i as int]);
        }
        i += 1;
    }
    false
}

} // verus!

verus! {

/// `dsh plugin --profile web add <spec>`
pub fn plugin_add_args(spec: &str) -> (r: Vec<String>)
    ensures
        texts(r@) == seq!["plugin"@, "--profile"@, "web"@, "add"@, spec@],
{
    let mut r: Vec<String> = Vec::new();
    r.push(String::from_str("plugin"));
    r.push(String::from_str("--profile"));
    r.push(String::from_str("web"));
    r.push(String::from_str("add"));
    r.push(String::from_str(spec));
    assert(texts(r@) =~= seq!["plugin"@, "--profile"@, "web"@, "add"@, spec@]);
    r
}

/// An install error that only says the plugin is already there.
pub open spec fn benign_plugin_error(error: Seq<char>) -> bool {
    let e = lower(error);
    contains(e, "already"@) || contains(e, "exists"@) || contains(e, "duplicate"@)
}

/// True when an already-present plugin should not fail first launch.
pub fn plugin_already_present(error: &str) -> (r: bool)
    ensures
        r == benign_plugin_error(error@),
{
    let e = lower_of(&chars_of(error));
    contains_of(&e, &chars_of("already")) || contains_of(&e, &chars_of("exists")) || contains_of(
        &e,
        &chars_of("duplicate"),
    )
}

/// `<app_data>/dsh-home/profiles/web`.
pub open spec fn web_profile(app_data: PathView) -> PathView {
    home_of(app_data).join("profiles"@).join("web"@)
}

/// `<app_data>/dsh-home/profiles/web/package.json`.
pub fn profile_package_path(app_data: &NativePath) -> (r: NativePath)
    ensures
        r@ == web_profile(app_data@).join("package.json"@),
{
    app_data.join("dsh-home").join("profiles").join("web").join("package.json")
}

/// The manifest whose presence means `package` is installed in the `web` profile:
/// `node_modules/@scope/name/package.json` for `@scope/name`, else
/// `node_modules/<package>/package.json`.
pub open spec fn installed_manifest(app_data: PathView, package: Seq<char>) -> PathView {
    let root = web_profile(app_data).join("node_modules"@);
    if package.len() > 0 && package[0] == '@' && split_once(package.drop_first(), '/').1 is Some {
        let (scope, name) = split_once(package.drop_first(), '/');
        root.join_path(seq!['@'] + scope).join_path(name->Some_0).join("package.json"@)
    } else {
        root.join_path(package).join("package.json"@)
    }
}

/// True when the named npm package exists under the official `web` profile.
pub fn plugin_installed_on_disk<P: Fn(&NativePath) -> EntryKind>(app_data: &NativePath, package: &str, probe: &P) -> (r: bool)
    requires
        forall|q: &NativePath| probe.requires((q,)),
    ensures
        r ==> file_seen(*probe, installed_manifest(app_data@, package@)),
        !r ==> no_file_seen(*probe, installed_manifest(app_data@, package@)),
{
    let root = app_data.join("dsh-home").join("profiles").join("web").join("node_modules");
    let p = chars_of(package);
    if p.len() > 0 && p[0] == '@' {
        let rest = crate::text::slice_of(&p, 1, p.len());
        assert(rest@ =~= p@.drop_first());
        let (scope, name) = split_once_of(&rest, '/');
        if let Some(name) = name {
            let mut dir: Vec<char> = vec!['@'];
            push_chars(&mut dir, &scope);
            assert(dir@ =~= seq!['@'] + scope@);
            let manifest = root.join_path(string_of(&dir)).join_path(string_of(&name)).join("package.json");
            return is_file(&manifest, probe);
        }
    }
    is_file(&root.join_path(String::from_str(package)).join("package.json"), probe)
}

/// Profile bundle entries taken by text (`None` for a non-string entry).
pub open spec fn entries_view(v: Seq<Option<String>>) -> Seq<Option<Seq<char>>> {
    v.map_values(|e: Option<String>| crate::text::opt_view(e))
}

/// Whether a bundle entry is a starter package that pruning may drop: a string that
/// names one of `STARTER_PLUGIN_PACKAGES` outside the `@deepseek-ai/` scope.
pub open spec fn prunable(entry: Option<Seq<char>>) -> bool {
    match entry {
        Some(name) => !starts_with(name, "@deepseek-ai/"@) && starter_packages().contains(name),
        None => false,
    }
}

/// Names of the entries that `keep` drops, in order.
pub open spec fn dropped(entries: Seq<Option<Seq<char>>>, keep: Seq<bool>) -> Seq<Seq<char>>
    decreases entries.len(),
{
    if entries.len() == 0 || keep.len() != entries.len() {
        Seq::empty()
    } else {
        let rest = dropped(entries.drop_last(), keep.drop_last());
        if !keep.last() && entries.last() is Some {
            rest.push(entries.last()->Some_0)
        } else {
            rest
        }
    }
}

/// Decides which profile bundles to drop because their packages are not actually on
/// disk (official dsh treats a missing bundle as a fatal plugin-tree failure).
/// Returns, for each entry, whether it stays, and the dropped names in order.
pub fn bundle_pruning<P: Fn(&NativePath) -> EntryKind>(
    bundles: &Vec<Option<String>>,
    app_data: &NativePath,
    probe: &P,
) -> (r: (Vec<bool>, Vec<String>))
    requires
        forall|q: &NativePath| probe.requires((q,)),
    ensures
        r.0@.len() == bundles@.len(),
        forall|i: int| 0 <= i < bundles@.len() ==> {
            let e = #[trigger] entries_view(bundles@)[i];
            if !prunable(e) {
                r.0@[i]
            } else if r.0@[i] {
                file_seen(*probe, installed_manifest(app_data@, e->Some_0))
            } else {
                no_file_seen(*probe, installed_manifest(app_data@, e->Some_0))
            }
        },
        texts(r.1@) == dropped(entries_view(bundles@), r.0@),
{
    let mut keep: Vec<bool> = Vec::new();
    let mut removed: Vec<String> = Vec::new();
    let mut i: usize = 0;
    while i < bundles.len()
        invariant
            i <= bundles.len(),
            forall|q: &NativePath| probe.requires((q,)),
            keep@.len() == i,
            forall|j: int| 0 <= j < i ==> {
                let e = #[trigger] entries_view(bundles@)[j];
                if !prunable(e) {
                    keep@[j]
                } else if keep@[j] {
                    file_seen(*probe, installed_manifest(app_data@, e->Some_0))
                } else {
                    no_file_seen(*probe, installed_manifest(app_data@, e->Some_0))
                }
            },
            texts(removed@) == dropped(entries_view(bundles@).subrange(0, i as int), keep@),
        decreases bundles.len() - i,
    {
        let ghost entries = entries_view(bundles@);
        let ghost before = keep@;
        let ghost removed_before = removed@;
        let stays = match &bundles[i] {
            None => true,
            Some(name) => {
                let n = chars_of(name.as_str());
                if crate::text::starts_with_of(&n, &chars_of("@deepseek-ai/")) {
                    true
                } else if is_starter_package(&n) {
                    if plugin_installed_on_disk(app_data, name.as_str(), probe) {
                        true
                    } else {
                        removed.push(name.clone());
                        false
                    }
                } else {
                    true
                }
            },
        };
        keep.push(stays);
        proof {
            assert(entries[i as int] == crate::text::opt_view(bundles@[i as int]));
            let sub = entries.subrange(0, i + 1);
            assert(sub.drop_last() =~= entries.subrange(0, i as int));
            assert(keep@.drop_last() =~= before);
            assert(sub.last() == entries[i as int]);
            if !stays {
                assert(texts(removed@) =~= texts(removed_before).push(bundles@[i as int]->Some_0@));
            } else {
                assert(texts(removed@) =~= texts(removed_before));
            }
            assert forall|j: int| 0 <= j < i + 1 implies {
                let e = #[trigger] entries_view(bundles@)[j];
                if !prunable(e) {
                    keep@[j]
                } else if keep@[j] {
                    file_seen(*probe, installed_manifest(app_data@, e->Some_0))
                } else {
                    no_file_seen(*probe, installed_manifest(app_data@, e->Some_0))
                }
            } by {
                if j < i {
                    assert(keep@[j] == before[j]);
                }
            }
        }
        i += 1;
    }
    assert(entries_view(bundles@).subrange(0, bundles@.len() as int) =~= entries_view(bundles@));
    (keep, removed)
}

/// Only starter packages outside `@deepseek-ai/` are ever dropped, and every
/// dropped name is one of the bundle entries.
pub proof fn law_pruning_drops_only_starters(entries: Seq<Option<Seq<char>>>, keep: Seq<bool>)
    requires
        keep.len() == entries.len(),
        forall|i: int| 0 <= i < entries.len() && !prunable(#[trigger] entries[i]) ==> keep[i],
    ensures
        forall|k: int| 0 <= k < dropped(entries, keep).len() ==> {
            let name = #[trigger] dropped(entries, keep)[k];
            &&& !starts_with(name, "@deepseek-ai/"@)
            &&& starter_packages().contains(name)
            &&& entries.contains(Some(name))
        },
    decreases entries.len(),
{
    if entries.len() > 0 {
        let e0 = entries.drop_last();
        let k0 = keep.drop_last();
        assert forall|i: int| 0 <= i < e0.len() && !prunable(#[trigger] e0[i]) implies k0[i] by {
            assert(e0[i] == entries[i]);
        }
        law_pruning_drops_only_starters(e0, k0);
        let d = dropped(entries, keep);
        assert forall|k: int| 0 <= k < d.len() implies {
            let name = #[trigger] d[k];
            &&& !starts_with(name, "@deepseek-ai/"@)
            &&& starter_packages().contains(name)
            &&& entries.contains(Some(name))
        } by {
            let d0 = dropped(e0, k0);
            if k < d0.len() {
                assert(d[k] == d0[k]);
                let j = choose|j: int| 0 <= j < e0.len() && e0[j] == Some(d0[k]);
                assert(entries[j] == Some(d[k]));
            } else {
                let last = entries.len() - 1;
                assert(!keep[last]);
                assert(prunable(entries[last]));
                assert(entries[last] == Some(d[k]));
            }
        }
    }
}

/// The entries of `entries` that `keep` keeps, in order.
pub open spec fn kept<A>(entries: Seq<A>, keep: Seq<bool>) -> Seq<A>
    decreases entries.len(),
{
    if entries.len() == 0 || keep.len() != entries.len() {
        Seq::empty()
    } else {
        let rest = kept(entries.drop_last(), keep.drop_last());
        if keep.last() {
            rest.push(entries.last())
        } else {
            rest
        }
    }
}

/// The bundle entries of a document by text (`None` for an entry that is not a
/// string).
pub open spec fn entry_texts(vals: Seq<serde_json::Value>) -> Seq<Option<Seq<char>>> {
    vals.map_values(|x: serde_json::Value| json_str(x))
}

/// `deps` without the entries whose keys are in `names`.
pub open spec fn without(
    deps: Map<Seq<char>, serde_json::Value>,
    names: Seq<Seq<char>>,
) -> Map<Seq<char>, serde_json::Value> {
    deps.remove_keys(names.to_set())
}

/// `keep` is what pruning decides for `entries`: an entry that is not prunable
/// stays, and a prunable one stays exactly when the probe showed its installed
/// manifest as a file.
pub open spec fn pruning_choice<P: Fn(&NativePath) -> EntryKind>(
    probe: P,
    app_data: PathView,
    entries: Seq<Option<Seq<char>>>,
    keep: Seq<bool>,
) -> bool {
    &&& keep.len() == entries.len()
    &&& forall|i: int| 0 <= i < entries.len() ==> {
        let e = #[trigger] entries[i];
        if !prunable(e) {
            keep[i]
        } else if keep[i] {
            file_seen(probe, installed_manifest(app_data, e->Some_0))
        } else {
            no_file_seen(probe, installed_manifest(app_data, e->Some_0))
        }
    }
}

/// `fin` is the document `doc` once pruned by `keep`: its bundles are the entries
/// that `keep` keeps, in order; its dependencies are those of `doc` but for the
/// dropped names; everything else is as in `doc`.
pub open spec fn pruned_document(doc: serde_json::Value, fin: serde_json::Value, keep: Seq<bool>) -> bool {
    let vals = json_bundles(doc)->Some_0;
    &&& json_bundles(fin) == Some(kept(vals, keep))
    &&& json_dependencies(fin) == without(json_dependencies(doc), dropped(entry_texts(vals), keep))
    &&& json_rest(fin) == json_rest(doc)
}

/// What `prune_profile_text` answers on the document `doc` once `keep` is decided:
/// nothing to write and no names when nothing is dropped; otherwise the dropped names
/// with the pruned document printed (and a final newline).
pub open spec fn pruning_outcome(
    doc: serde_json::Value,
    keep: Seq<bool>,
    r: Result<(Option<String>, Vec<String>), String>,
) -> bool {
    let names = dropped(entry_texts(json_bundles(doc)->Some_0), keep);
    match r {
        Ok((None, removed)) => names.len() == 0 && removed@.len() == 0,
        Ok((Some(t), removed)) => {
            &&& names.len() > 0
            &&& texts(removed@) == names
            &&& exists|fin: serde_json::Value| #[trigger] pruned_document(doc, fin, keep)
                && t@ == json_pretty(fin) + seq!['\n']
        },
        Err(_) => false,
    }
}

proof fn lemma_kept_len<A>(entries: Seq<A>, keep: Seq<bool>)
    ensures
        kept(entries, keep).len() <= entries.len(),
    decreases entries.len(),
{
    if entries.len() > 0 && keep.len() == entries.len() {
        lemma_kept_len(entries.drop_last(), keep.drop_last());
    }
}

proof fn lemma_kept_step<A>(entries: Seq<A>, keep: Seq<bool>, i: int)
    requires
        keep.len() == entries.len(),
        0 <= i < entries.len(),
    ensures
        kept(entries.subrange(0, i + 1), keep.subrange(0, i + 1)) == if keep[i] {
            kept(entries.subrange(0, i), keep.subrange(0, i)).push(entries[i])
        } else {
            kept(entries.subrange(0, i), keep.subrange(0, i))
        },
{
    let e = entries.subrange(0, i + 1);
    let k = keep.subrange(0, i + 1);
    assert(e.drop_last() =~= entries.subrange(0, i));
    assert(k.drop_last() =~= keep.subrange(0, i));
}

/// Pruning loses no entry silently: every bundle entry either stays in the rewritten
/// array or is reported among the dropped names.
pub proof fn law_pruning_accounts_for_every_entry(entries: Seq<Option<Seq<char>>>, keep: Seq<bool>)
    requires
        keep.len() == entries.len(),
        forall|i: int| 0 <= i < entries.len() && !prunable(#[trigger] entries[i]) ==> keep[i],
    ensures
        kept(entries, keep).len() + dropped(entries, keep).len() == entries.len(),
    decreases entries.len(),
{
    if entries.len() > 0 {
        let e0 = entries.drop_last();
        let k0 = keep.drop_last();
        assert forall|i: int| 0 <= i < e0.len() && !prunable(#[trigger] e0[i]) implies k0[i] by {
            assert(e0[i] == entries[i]);
        }
        law_pruning_accounts_for_every_entry(e0, k0);
        if !keep.last() {
            assert(prunable(entries[entries.len() - 1]));
        }
    }
}

/// Drops from the profile manifest `text` the starter bundles whose packages are not
/// on disk, with their `dependencies` keys. Returns the rewritten manifest when
/// something was dropped, and the dropped names in order; a manifest without a
/// bundles array is left alone; a manifest that does not parse gives the parser's
/// message.
pub fn prune_profile_text<P: Fn(&NativePath) -> EntryKind>(
    text: &str,
    app_data: &NativePath,
    probe: &P,
) -> (r: Result<(Option<String>, Vec<String>), String>)
    requires
        forall|q: &NativePath| probe.requires((q,)),
    ensures
        match json_parse_error(text@) {
            Some(message) => r matches Err(m) && m@ == message,
            None => match json_bundles(json_document(text@)) {
                None => r matches Ok((None, removed)) && removed@.len() == 0,
                Some(vals) => exists|keep: Seq<bool>|
                    #[trigger] pruning_choice(*probe, app_data@, entry_texts(vals), keep)
                        && pruning_outcome(json_document(text@), keep, r),
            },
        },
{
    let mut doc = match parse_json(text) {
        Ok(doc) => doc,
        Err(message) => return Err(message),
    };
    let ghost doc0 = doc;
    let entries = match bundle_entries(&doc) {
        Some(v) => v,
        None => return Ok((None, Vec::new())),
    };
    let ghost vals = json_bundles(doc0)->Some_0;
    let ghost all = entries_view(entries@);
    assert(all =~= entries@.map_values(|e: Option<String>| crate::text::opt_view(e)));
    assert(all == entry_texts(vals));
    let (keep, removed) = bundle_pruning(&entries, app_data, probe);
    assert(pruning_choice(*probe, app_data@, all, keep@));
    if removed.len() == 0 {
        assert(pruning_outcome(doc0, keep@, Ok((None, removed))));
        return Ok((None, removed));
    }
    let mut i: usize = 0;
    let mut j: usize = 0;
    while i < keep.len()
        invariant
            i <= keep.len(),
            keep@.len() == vals.len(),
            j == kept(vals.subrange(0, i as int), keep@.subrange(0, i as int)).len(),
            json_bundles(doc) == Some(
                kept(vals.subrange(0, i as int), keep@.subrange(0, i as int)) + vals.subrange(i as int, vals.len() as int),
            ),
            json_dependencies(doc) == json_dependencies(doc0),
            json_rest(doc) == json_rest(doc0),
        decreases keep.len() - i,
    {
        let ghost front = kept(vals.subrange(0, i as int), keep@.subrange(0, i as int));
        let ghost back = vals.subrange(i as int, vals.len() as int);
        proof {
            lemma_kept_step(vals, keep@, i as int);
            lemma_kept_len(vals.subrange(0, i as int), keep@.subrange(0, i as int));
        }
        if keep[i] {
            assert(front.push(vals[i as int]) + vals.subrange(i + 1, vals.len() as int) =~= front + back);
            j += 1;
        } else {
            remove_bundle(&mut doc, j);
            assert((front + back).remove(j as int) =~= front + vals.subrange(i + 1, vals.len() as int));
        }
        i += 1;
    }
    assert(vals.subrange(0, vals.len() as int) =~= vals);
    assert(keep@.subrange(0, keep@.len() as int) =~= keep@);
    let ghost names = texts(removed@);
    let mut k: usize = 0;
    while k < removed.len()
        invariant
            k <= removed.len(),
            names == texts(removed@),
            json_bundles(doc) == Some(kept(vals, keep@)),
            json_dependencies(doc) == without(json_dependencies(doc0), names.subrange(0, k as int)),
            json_rest(doc) == json_rest(doc0),
        decreases removed.len() - k,
    {
        remove_dependency(&mut doc, removed[k].as_str());
        proof {
            let s0 = names.subrange(0, k as int);
            let s1 = names.subrange(0, k + 1);
            assert(s1 =~= s0.push(names[k as int]));
            assert(names[k as int] == removed@[k as int]@);
            assert(s1.to_set() =~= s0.to_set().insert(names[k as int])) by {
                assert forall|n: Seq<char>| s1.contains(n) <==> (s0.contains(n) || n == names[k as int]) by {
                    if s1.contains(n) {
                        let w = choose|w: int| 0 <= w < s1.len() && s1[w] == n;
                        if w < k {
                            assert(s0[w] == n);
                        }
                    }
                    if s0.contains(n) {
                        let w = choose|w: int| 0 <= w < s0.len() && s0[w] == n;
                        assert(s1[w] == n);
                    }
                    if n == names[k as int] {
                        assert(s1[k as int] == n);
                    }
                }
            }
            assert(json_dependencies(doc) =~= without(json_dependencies(doc0), s1));
        }
        k += 1;
    }
    assert(names.subrange(0, removed@.len() as int) =~= names);
    assert(pruned_document(doc0, doc, keep@));
    match pretty_json(&doc) {
        Ok(printed) => {
            let mut out = chars_of(printed.as_str());
            out.push('\n');
            let t = string_of(out.as_slice());
            assert(t@ == json_pretty(doc) + seq!['\n']);
            let r = Ok((Some(t), removed));
            assert(pruning_outcome(doc0, keep@, r));
            r
        },
        Err(message) => Err(message),
    }
}

} // verus!

verus! {

/// What the environment says about how to launch dsh.
#[derive(Debug, Clone)]
pub struct LaunchEnv {
    /// `std::env::consts::OS`.
    pub os: String,
    /// `DSH_DESKTOP_BIN`: a dsh executable to run as is.
    pub desktop_bin: Option<NativePath>,
    /// `DSH_CHECKOUT`: a deepseek-harness source checkout to run with pnpm.
    pub checkout: Option<NativePath>,
    /// `DSH_DESKTOP_NODE`: the Node executable to prefer.
    pub node: Option<NativePath>,
}

/// One resolved local launch command.
#[derive(Debug, Clone)]
pub struct LaunchPlan {
    pub program: NativePath,
    pub args: Vec<String>,
    pub cwd: Option<NativePath>,
    pub env: Vec<(String, String)>,
}

/// `plan` runs `program` with `args` in `cwd` with exactly the variables `vars`.
pub open spec fn plan_is(
    plan: LaunchPlan,
    program: PathView,
    args: Seq<Seq<char>>,
    cwd: PathView,
    vars: Seq<(Seq<char>, Seq<char>)>,
) -> bool {
    &&& plan.program@ == program
    &&& texts(plan.args@) == args
    &&& opt_path(plan.cwd) == Some(cwd)
    &&& pairs_view(plan.env@) == vars
}

/// `plan` runs Node on the entry script `bin` of the npm prefix `prefix`, with the
/// resolution hook `hook` when one was found, in `prefix`, with the packaged variables.
pub open spec fn node_plan(
    plan: LaunchPlan,
    app_data: PathView,
    node: PathView,
    bin: PathView,
    prefix: PathView,
    hook: Option<PathView>,
    cli: Seq<Seq<char>>,
) -> bool {
    &&& plan.program@ == node
    &&& node_args_ok(texts(plan.args@), bin, hook, cli)
    &&& opt_path(plan.cwd) == Some(prefix)
    &&& pairs_view(plan.env@) == packaged_vars(app_data, prefix)
}

/// Error text when a checkout is named but pnpm is not on `PATH`.
pub open spec fn no_pnpm_error() -> Seq<char> {
    "pnpm not found on PATH for DSH_CHECKOUT"@
}

/// Error text when no Node executable can be found.
pub open spec fn no_node_error() -> Seq<char> {
    "This build has no bundled Node, and Node.js 22.19+ is not on PATH. Use a packaged installer or install Node."@
}

/// Error text when the managed prefix holds no dsh yet.
pub open spec fn not_installed_error() -> Seq<char> {
    "managed "@ + "@deepseek-ai/dsh"@ + " is not installed yet"@
}

/// Outcome when the checkout `root` is used: `pnpm dsh <cli>` in the checkout.
pub open spec fn checkout_outcome<W: Fn(&str) -> Option<NativePath>>(
    r: Result<LaunchPlan, String>,
    app_data: PathView,
    cli: Seq<Seq<char>>,
    root: PathView,
    which: W,
) -> bool {
    match r {
        Ok(plan) => which_first(which, "pnpm.cmd"@, "pnpm"@, Some(plan.program@)) && plan_is(
            plan,
            plan.program@,
            seq!["dsh"@] + cli,
            root,
            home_vars(app_data),
        ),
        Err(e) => which_first(which, "pnpm.cmd"@, "pnpm"@, None) && e@ == no_pnpm_error(),
    }
}

/// Outcome when the managed npm prefix in app data is used.
pub open spec fn managed_outcome<P: Fn(&NativePath) -> EntryKind, W: Fn(&str) -> Option<NativePath>, L: Fn(&NativePath, &NativePath)>(
    r: Result<LaunchPlan, String>,
    app_data: PathView,
    hints: Seq<PathView>,
    cli: Seq<Seq<char>>,
    node_env: Option<PathView>,
    probe: P,
    which: W,
    link: L,
) -> bool {
    let prefix = prefix_of(app_data);
    match r {
        Err(e) => {
            ||| node_found(probe, which, node_env, None) && e@ == no_node_error()
            ||| (exists|node: PathView| #[trigger] node_found(probe, which, node_env, Some(node)))
                && no_file_seen(probe, bin_under(prefix)) && e@ == not_installed_error()
        },
        Ok(plan) => {
            &&& node_found(probe, which, node_env, Some(plan.program@))
            &&& file_seen(probe, bin_under(prefix))
            &&& exists|h: Option<PathView>| #[trigger] hook_found(probe, hints, h)
                && node_plan(plan, app_data, plan.program@, bin_under(prefix), prefix, h, cli)
            &&& link_ran(link, home_of(app_data), prefix)
        },
    }
}

/// Outcome when the bundled runtime below `root` is used: its Node runs its entry
/// script, with the resolve hook when one is found.
pub open spec fn bundle_outcome<P: Fn(&NativePath) -> EntryKind, L: Fn(&NativePath, &NativePath)>(
    r: Result<LaunchPlan, String>,
    app_data: PathView,
    hints: Seq<PathView>,
    cli: Seq<Seq<char>>,
    os: Seq<char>,
    probe: P,
    link: L,
    root: PathView,
) -> bool {
    let prefix = root.join("runtime"@).join("dsh"@);
    &&& r matches Ok(plan)
    &&& exists|h: Option<PathView>| #[trigger] hook_found(probe, hints, h) && node_plan(
        plan,
        app_data,
        bundled_node(root, os),
        bundled_bin(root),
        prefix,
        h,
        cli,
    )
    &&& link_ran(link, home_of(app_data), prefix)
}

/// What `resolve_cli` may return after its probes and lookups.
pub open spec fn resolved<P: Fn(&NativePath) -> EntryKind, W: Fn(&str) -> Option<NativePath>, L: Fn(&NativePath, &NativePath)>(
    r: Result<LaunchPlan, String>,
    app_data: PathView,
    hints: Seq<PathView>,
    cli: Seq<Seq<char>>,
    env: LaunchEnv,
    probe: P,
    which: W,
    link: L,
) -> bool {
    let roots = runtime_roots(hints);
    let os = env.os@;
    match env.desktop_bin {
        Some(b) => r matches Ok(plan) && plan_is(plan, b@, cli, home_of(app_data), home_vars(app_data)),
        None => {
            ||| exists|k: int| #[trigger] first_bundle(probe, roots, os, k)
                && bundle_outcome(r, app_data, hints, cli, os, probe, link, roots[k])
            ||| {
                &&& forall|j: int| 0 <= j < roots.len() ==> bundle_missing(probe, #[trigger] roots[j], os)
                &&& {
                    ||| env.checkout matches Some(c) && checkout_seen(probe, c@, true)
                        && checkout_outcome(r, app_data, cli, c@, which)
                    ||| (env.checkout is None || checkout_seen(probe, env.checkout->Some_0@, false))
                        && managed_outcome(r, app_data, hints, cli, opt_path(env.node), probe, which, link)
                }
            }
        },
    }
}

fn strings_copy(v: &[String]) -> (r: Vec<String>)
    ensures
        texts(r@) == texts(v@),
{
    let mut r: Vec<String> = Vec::new();
    let mut i: usize = 0;
    while i < v.len()
        invariant
            i <= v.len(),
            r@.len() == i,
            texts(r@) == texts(v@).subrange(0, i as int),
        decreases v.len() - i,
    {
        let ghost before = r@;
        let s = v[i].clone();
        r.push(s);
        proof {
            assert(r@ == before.push(v@[i as int]));
            assert forall|j: int| 0 <= j < i + 1 implies #[trigger] texts(r@)[j] == texts(v@).subrange(0, i + 1)[j] by {
                if j < i {
                    assert(texts(before)[j] == texts(v@).subrange(0, i as int)[j]);
                }
            }
            assert(texts(r@) =~= texts(v@).subrange(0, i + 1));
        }
        i += 1;
    }
    proof { assert(texts(v@).subrange(0, v@.len() as int) =~= texts(v@)); }
    r
}

/// Resolve node/pnpm/dsh for an arbitrary CLI after the launcher token: an explicit
/// executable, else the bundled runtime, else an explicit checkout, else the
/// managed npm prefix. `probe` answers filesystem questions, `which` looks names up
/// on `PATH`, and `link` is the best-effort step run before a packaged launch.
pub fn resolve_cli<P: Fn(&NativePath) -> EntryKind, W: Fn(&str) -> Option<NativePath>, L: Fn(&NativePath, &NativePath)>(
    app_data: &NativePath,
    hints: &[NativePath],
    cli: &[String],
    env: &LaunchEnv,
    probe: &P,
    which: &W,
    link: &L,
) -> (r: Result<LaunchPlan, String>)
    requires
        forall|q: &NativePath| probe.requires((q,)),
        forall|s: &str| which.requires((s,)),
        forall|a: &NativePath, b: &NativePath| link.requires((a, b)),
    ensures
        resolved(r, app_data@, views(hints@), texts(cli@), *env, *probe, *which, *link),
{
    let home = app_data.join("dsh-home");
    if let Some(explicit) = &env.desktop_bin {
        return Ok(
            LaunchPlan {
                program: explicit.duplicate(),
                args: strings_copy(cli),
                cwd: Some(home),
                env: home_env(app_data),
            },
        );
    }
    let ghost roots = runtime_roots(views(hints@));
    if let Some((node, bin)) = find_bundled_runtime(hints, env.os.as_str(), probe) {
        let ghost k = choose|k: int| #[trigger] first_bundle(*probe, roots, env.os@, k)
            && node@ == bundled_node(roots[k], env.os@) && bin@ == bundled_bin(roots[k]);
        proof { law_prefix_of_bin_under(roots[k].join("runtime"@).join("dsh"@)); }
        let prefix = match npm_prefix_from_bin(&bin) {
            Some(p) => p,
            None => match bin.parent() {
                Some(p) => p,
                None => bin.duplicate(),
            },
        };
        let hook = find_resolve_hook(hints, probe);
        let args = node_cli_args(&bin, hook.as_ref(), cli);
        let vars = packaged_env(app_data, &prefix, link);
        let plan = LaunchPlan { program: node, args, cwd: Some(prefix), env: vars };
        proof {
            assert(hook_found(*probe, views(hints@), opt_path(hook)));
            assert(first_bundle(*probe, roots, env.os@, k));
        }
        return Ok(plan);
    }
    let checkout = match &env.checkout {
        Some(c) => Some(c.duplicate()),
        None => None,
    };
    if let Some(root) = find_checkout(checkout, probe) {
        let pnpm = match which_either(which, "pnpm.cmd", "pnpm") {
            Some(p) => p,
            None => return Err(String::from_str("pnpm not found on PATH for DSH_CHECKOUT")),
        };
        let mut args: Vec<String> = Vec::new();
        args.push(String::from_str("dsh"));
        let mut i: usize = 0;
        while i < cli.len()
            invariant
                i <= cli.len(),
                args@.len() == i + 1,
            texts(args@) == seq!["dsh"@] + texts(cli@).subrange(0, i as int),
            decreases cli.len() - i,
        {
            let ghost before = args@;
            let s = cli[i].clone();
            args.push(s);
            proof {
                assert(args@ == before.push(cli@[i as int]));
                assert forall|j: int| 0 <= j < i + 2 implies #[trigger] texts(args@)[j] == (seq!["dsh"@] + texts(cli@).subrange(0, i + 1))[j] by {
                    if j < i + 1 {
                        assert(texts(before)[j] == (seq!["dsh"@] + texts(cli@).subrange(0, i as int))[j]);
                    }
                }
                assert(texts(args@) =~= seq!["dsh"@] + texts(cli@).subrange(0, i + 1));
            }
            i += 1;
        }
        proof { assert(texts(cli@).subrange(0, cli@.len() as int) =~= texts(cli@)); }
        return Ok(LaunchPlan { program: pnpm, args, cwd: Some(root), env: home_env(app_data) });
    }
    let node_env = match &env.node {
        Some(n) => Some(n.duplicate()),
        None => None,
    };
    let node = match find_node(node_env, probe, which) {
        Some(n) => n,
        None => {
            return Err(
                String::from_str(
                    "This build has no bundled Node, and Node.js 22.19+ is not on PATH. Use a packaged installer or install Node.",
                ),
            )
        },
    };
    let prefix = runtime_prefix(app_data);
    let bin = match managed_bin(&prefix, probe) {
        Some(b) => b,
        None => {
            let mut msg: Vec<char> = Vec::new();
            push_str(&mut msg, "managed ");
            push_str(&mut msg, DSH_PACKAGE);
            push_str(&mut msg, " is not installed yet");
            proof { assert(node_found(*probe, *which, opt_path(env.node), Some(node@))); }
            return Err(string_of(&msg));
        },
    };
    let hook = find_resolve_hook(hints, probe);
    let args = node_cli_args(&bin, hook.as_ref(), cli);
    let vars = packaged_env(app_data, &prefix, link);
    proof { assert(hook_found(*probe, views(hints@), opt_path(hook))); }
    Ok(LaunchPlan { program: node, args, cwd: Some(prefix), env: vars })
}

} // verus!

verus! {

/// What `needs_managed_install` answers: true only when no `DSH_DESKTOP_BIN` is set,
/// the probes showed no explicit checkout, no bundle below `roots` and no managed entry
/// script; false only when one of those was seen.
pub open spec fn needs_install_answer<P: Fn(&NativePath) -> EntryKind>(
    probe: P,
    app_data: PathView,
    roots: Seq<PathView>,
    env: LaunchEnv,
    r: bool,
) -> bool {
    &&& r ==> {
        &&& env.desktop_bin is None
        &&& env.checkout is None || checkout_seen(probe, env.checkout->Some_0@, false)
        &&& forall|j: int| 0 <= j < roots.len() ==> bundle_missing(probe, #[trigger] roots[j], env.os@)
        &&& no_file_seen(probe, bin_under(prefix_of(app_data)))
    }
    &&& !r ==> {
        ||| env.desktop_bin is Some
        ||| env.checkout matches Some(c) && checkout_seen(probe, c@, true)
        ||| exists|k: int| #[trigger] first_bundle(probe, roots, env.os@, k)
        ||| file_seen(probe, bin_under(prefix_of(app_data)))
    }
}

/// True when there is no bundled runtime and the app-data prefix still needs npm.
pub fn needs_managed_install<P: Fn(&NativePath) -> EntryKind>(
    app_data: &NativePath,
    hints: &[NativePath],
    env: &LaunchEnv,
    probe: &P,
) -> (r: bool)
    requires
        forall|q: &NativePath| probe.requires((q,)),
    ensures
        needs_install_answer(*probe, app_data@, runtime_roots(views(hints@)), *env, r),
{
    if env.desktop_bin.is_some() {
        return false;
    }
    let checkout = match &env.checkout {
        Some(c) => Some(c.duplicate()),
        None => None,
    };
    if find_checkout(checkout, probe).is_some() {
        return false;
    }
    if find_bundled_runtime(hints, env.os.as_str(), probe).is_some() {
        return false;
    }
    managed_bin(&runtime_prefix(app_data), probe).is_none()
}

proof fn lemma_file_answers_agree<P: Fn(&NativePath) -> EntryKind>(
    probe: P,
    disk: spec_fn(PathView) -> EntryKind,
    v: PathView,
)
    requires
        fixed_disk(probe, disk),
    ensures
        !(file_seen(probe, v) && no_file_seen(probe, v)),
        !(crate::path::dir_seen(probe, v) && crate::path::no_dir_seen(probe, v)),
{
    if file_seen(probe, v) {
        lemma_fixed_disk_seen(probe, disk, v, EntryKind::File);
    }
    if crate::path::dir_seen(probe, v) {
        lemma_fixed_disk_seen(probe, disk, v, EntryKind::Dir);
    }
    if crate::path::seen(probe, v, EntryKind::Missing) {
        lemma_fixed_disk_seen(probe, disk, v, EntryKind::Missing);
    }
    if crate::path::seen(probe, v, EntryKind::Other) {
        lemma_fixed_disk_seen(probe, disk, v, EntryKind::Other);
    }
}

/// On a file system that does not change between calls, `needs_managed_install` is
/// true exactly when `DSH_DESKTOP_BIN` is unset and `find_checkout` (on
/// `DSH_CHECKOUT`), `find_bundled_runtime` (on the same hints) and `managed_bin` (on
/// the app-data runtime prefix) all find nothing.
pub proof fn law_needs_managed_install<P: Fn(&NativePath) -> EntryKind>(
    probe: P,
    disk: spec_fn(PathView) -> EntryKind,
    app_data: PathView,
    hints: Seq<NativePath>,
    env: LaunchEnv,
    needs: bool,
    checkout: Option<NativePath>,
    bundle: Option<(NativePath, NativePath)>,
    bin: Option<NativePath>,
)
    requires
        fixed_disk(probe, disk),
        needs_install_answer(probe, app_data, runtime_roots(views(hints)), env, needs),
        checkout_answer(probe, env.checkout, checkout),
        bundle_answer(probe, runtime_roots(views(hints)), env.os@, bundle),
        managed_bin_answer(probe, prefix_of(app_data), bin),
    ensures
        needs == (env.desktop_bin is None && checkout is None && bundle is None && bin is None),
{
    let roots = runtime_roots(views(hints));
    let os = env.os@;
    lemma_file_answers_agree(probe, disk, bin_under(prefix_of(app_data)));
    if let Some(e) = env.checkout {
        lemma_file_answers_agree(probe, disk, workspace_file(e@));
        lemma_file_answers_agree(probe, disk, cli_dir(e@));
    }
    if needs {
        if let Some((n, b)) = bundle {
            let k = choose|k: int| #[trigger] first_bundle(probe, roots, os, k)
                && n@ == bundled_node(roots[k], os) && b@ == bundled_bin(roots[k]);
            assert(bundle_missing(probe, roots[k], os));
            lemma_file_answers_agree(probe, disk, bundled_node(roots[k], os));
            lemma_file_answers_agree(probe, disk, bundled_bin(roots[k]));
        }
    } else {
        if exists|k: int| #[trigger] first_bundle(probe, roots, os, k) {
            let k = choose|k: int| #[trigger] first_bundle(probe, roots, os, k);
            if bundle is None {
                assert(bundle_missing(probe, roots[k], os));
                lemma_file_answers_agree(probe, disk, bundled_node(roots[k], os));
                lemma_file_answers_agree(probe, disk, bundled_bin(roots[k]));
            }
        }
    }
}

/// The CLI after the launcher token that starts the web server.
pub open spec fn web_cli(host: Seq<char>, port: u16) -> Seq<Seq<char>> {
    seq!["web"@, "--host"@, host, "--port"@, crate::numbers::decimal(port as nat)]
}

/// Choose DSH_DESKTOP_BIN, the bundled runtime, an explicit checkout, or managed
/// `node` + bin.js, to run `web --host <host> --port <port>`.
pub fn resolve_launch<P: Fn(&NativePath) -> EntryKind, W: Fn(&str) -> Option<NativePath>, L: Fn(&NativePath, &NativePath)>(
    app_data: &NativePath,
    hints: &[NativePath],
    config: &crate::config::DshConfig,
    env: &LaunchEnv,
    probe: &P,
    which: &W,
    link: &L,
) -> (r: Result<LaunchPlan, String>)
    requires
        forall|q: &NativePath| probe.requires((q,)),
        forall|s: &str| which.requires((s,)),
        forall|a: &NativePath, b: &NativePath| link.requires((a, b)),
    ensures
        resolved(r, app_data@, views(hints@), web_cli(config.host@, config.port), *env, *probe, *which, *link),
{
    let mut cli: Vec<String> = Vec::new();
    cli.push(String::from_str("web"));
    let tail = crate::config::web_launch_args(config.host.as_str(), config.port);
    let mut i: usize = 0;
    while i < 4
        invariant
            i <= 4,
            tail@.len() == 4,
            cli@.len() == i + 1,
            texts(cli@) == seq!["web"@] + texts(tail@).subrange(0, i as int),
        decreases 4 - i,
    {
        let ghost before = cli@;
        let s = tail[i].clone();
        cli.push(s);
        proof {
            assert(cli@ == before.push(tail@[i as int]));
            assert forall|j: int| 0 <= j < i + 2 implies #[trigger] texts(cli@)[j] == (seq!["web"@] + texts(tail@).subrange(0, i + 1))[j] by {
                if j < i + 1 {
                    assert(texts(before)[j] == (seq!["web"@] + texts(tail@).subrange(0, i as int))[j]);
                }
            }
            assert(texts(cli@) =~= seq!["web"@] + texts(tail@).subrange(0, i + 1));
        }
        i += 1;
    }
    assert(texts(cli@) =~= web_cli(config.host@, config.port));
    resolve_cli(app_data, hints, cli.as_slice(), env, probe, which, link)
}

/// Human-readable command line for the settings log: the program, then each
/// argument, separated by single spaces.
pub fn launch_command_line(plan: &LaunchPlan) -> (r: String)
    ensures
        r@ == crate::path::names_text(seq![plan.program@.text()] + texts(plan.args@), ' '),
{
    let mut out = chars_of(plan.program.text().as_str());
    let ghost first = seq![plan.program@.text()];
    proof {
        assert(crate::path::names_text(first, ' ') == plan.program@.text());
    }
    let mut i: usize = 0;
    while i < plan.args.len()
        invariant
            i <= plan.args.len(),
            first == seq![plan.program@.text()],
            out@ == crate::path::names_text(first + texts(plan.args@).subrange(0, i as int), ' '),
        decreases plan.args.len() - i,
    {
        let ghost all = first + texts(plan.args@).subrange(0, i + 1);
        proof {
            assert(all.drop_last() =~= first + texts(plan.args@).subrange(0, i as int));
            assert(all.last() == plan.args@[i as int]@);
        }
        out.push(' ');
        push_chars(&mut out, &chars_of(plan.args[i].as_str()));
        i += 1;
    }
    proof {
        assert(texts(plan.args@).subrange(0, plan.args@.len() as int) =~= texts(plan.args@));
    }
    string_of(&out)
}

} // verus!

verus! {

/// `<prefix>/node_modules/@deepseek-ai/dsh/package.json`.
pub open spec fn manifest_under(prefix: PathView) -> PathView {
    prefix.join("node_modules"@).join("@deepseek-ai"@).join("dsh"@).join("package.json"@)
}

/// Some call of `read` on a path spelled `v` answered `out`.
pub open spec fn read_said<R: Fn(&NativePath) -> Option<String>>(read: R, v: PathView, out: Option<Seq<char>>) -> bool {
    exists|p: NativePath, o: Option<String>| #![trigger call_ensures(read, (&p,), o)]
        p@ == v && call_ensures(read, (&p,), o) && crate::text::opt_view(o) == out
}

/// Read version from the managed package manifest; `read` returns a file's text, or
/// `None` when it cannot be read.
pub fn managed_version<R: Fn(&NativePath) -> Option<String>>(prefix: &NativePath, read: &R) -> (r: Option<String>)
    requires
        forall|q: &NativePath| read.requires((q,)),
    ensures
        exists|text: Option<Seq<char>>| #[trigger] read_said(*read, manifest_under(prefix@), text)
            && crate::text::opt_view(r) == match text {
                Some(t) => json_string_field_of(t, "version"@),
                None => None,
            },
{
    let manifest = prefix.join("node_modules").join("@deepseek-ai").join("dsh").join("package.json");
    let text = read(&manifest);
    assert(call_ensures(*read, (&manifest,), text));
    assert(read_said(*read, manifest_under(prefix@), crate::text::opt_view(text)));
    match text {
        Some(t) => json_string_field(t.as_str(), "version"),
        None => None,
    }
}

} // verus!

verus! {

// ---------------------------------------------------------------- one answer per machine state

/// `which` answers each name by a fixed map: a `PATH` that does not change between
/// calls.
pub open spec fn fixed_lookup<W: Fn(&str) -> Option<NativePath>>(
    which: W,
    found: spec_fn(Seq<char>) -> Option<PathView>,
) -> bool {
    forall|s: &str, o: Option<NativePath>| #[trigger] call_ensures(which, (s,), o) ==> opt_path(o) == found(s@)
}

/// Two launch plans that agree but, at most, in the argument after a leading
/// `--import`, and there both are file URLs of one hook path: on one machine, where
/// the separator the `url` crate works under is one, they are the same URL.
pub open spec fn same_plan(a: LaunchPlan, b: LaunchPlan) -> bool {
    &&& a.program@ == b.program@
    &&& opt_path(a.cwd) == opt_path(b.cwd)
    &&& pairs_view(a.env@) == pairs_view(b.env@)
    &&& texts(a.args@).len() == texts(b.args@).len()
    &&& forall|i: int| #![trigger texts(a.args@)[i]]
        0 <= i < texts(a.args@).len() && !(i == 1 && texts(a.args@)[0] == "--import"@)
            ==> texts(a.args@)[i] == texts(b.args@)[i]
    &&& texts(a.args@).len() > 1 ==> {
        ||| texts(a.args@)[1] == texts(b.args@)[1]
        ||| exists|h: PathView| #[trigger] file_url_of(texts(a.args@)[1], h) && file_url_of(texts(b.args@)[1], h)
    }
}

proof fn lemma_which_unique<W: Fn(&str) -> Option<NativePath>>(
    which: W,
    found: spec_fn(Seq<char>) -> Option<PathView>,
    name: Seq<char>,
)
    requires
        fixed_lookup(which, found),
    ensures
        forall|o1: Option<PathView>, o2: Option<PathView>|
            #![trigger which_said(which, name, o1), which_said(which, name, o2)]
            which_said(which, name, o1) && which_said(which, name, o2) ==> o1 == o2,
{
    assert forall|o1: Option<PathView>, o2: Option<PathView>|
        #![trigger which_said(which, name, o1), which_said(which, name, o2)]
        which_said(which, name, o1) && which_said(which, name, o2) implies o1 == o2 by {
        let (s1, p1) = choose|s: &str, o: Option<NativePath>| s@ == name && call_ensures(which, (s,), o) && opt_path(o) == o1;
        let (s2, p2) = choose|s: &str, o: Option<NativePath>| s@ == name && call_ensures(which, (s,), o) && opt_path(o) == o2;
        assert(call_ensures(which, (s1,), p1));
        assert(call_ensures(which, (s2,), p2));
    }
}

proof fn lemma_first_bundle_unique<P: Fn(&NativePath) -> EntryKind>(
    probe: P,
    disk: spec_fn(PathView) -> EntryKind,
    roots: Seq<PathView>,
    os: Seq<char>,
    k1: int,
    k2: int,
)
    requires
        fixed_disk(probe, disk),
        first_bundle(probe, roots, os, k1),
        first_bundle(probe, roots, os, k2),
    ensures
        k1 == k2,
{
    if k1 < k2 {
        assert(bundle_missing(probe, roots[k1], os));
        lemma_file_answers_agree(probe, disk, bundled_node(roots[k1], os));
        lemma_file_answers_agree(probe, disk, bundled_bin(roots[k1]));
    } else if k2 < k1 {
        assert(bundle_missing(probe, roots[k2], os));
        lemma_file_answers_agree(probe, disk, bundled_node(roots[k2], os));
        lemma_file_answers_agree(probe, disk, bundled_bin(roots[k2]));
    }
}

proof fn lemma_hook_unique<P: Fn(&NativePath) -> EntryKind>(
    probe: P,
    disk: spec_fn(PathView) -> EntryKind,
    hints: Seq<PathView>,
    h1: Option<PathView>,
    h2: Option<PathView>,
)
    requires
        fixed_disk(probe, disk),
        hook_found(probe, hints, h1),
        hook_found(probe, hints, h2),
    ensures
        h1 == h2,
{
    let c = hook_candidates(hints);
    if h1 is Some {
        let k1 = choose|k: int| #[trigger] first_file(probe, c, k) && h1->Some_0 == c[k];
        lemma_file_answers_agree(probe, disk, c[k1]);
        if h2 is Some {
            let k2 = choose|k: int| #[trigger] first_file(probe, c, k) && h2->Some_0 == c[k];
            lemma_file_answers_agree(probe, disk, c[k2]);
            if k1 < k2 {
                assert(no_file_seen(probe, c[k1]));
            } else if k2 < k1 {
                assert(no_file_seen(probe, c[k2]));
            }
        } else {
            assert(no_file_seen(probe, c[k1]));
        }
    } else if h2 is Some {
        let k2 = choose|k: int| #[trigger] first_file(probe, c, k) && h2->Some_0 == c[k];
        lemma_file_answers_agree(probe, disk, c[k2]);
        assert(no_file_seen(probe, c[k2]));
    }
}

proof fn lemma_node_args_same(x: Seq<Seq<char>>, y: Seq<Seq<char>>, bin: PathView, hook: Option<PathView>, cli: Seq<Seq<char>>)
    requires
        node_args_ok(x, bin, hook, cli),
        node_args_ok(y, bin, hook, cli),
    ensures
        x.len() == y.len(),
        forall|i: int| 0 <= i < x.len() && !(i == 1 && x[0] == "--import"@) ==> x[i] == y[i],
        x.len() > 1 ==> x[1] == y[1] || (hook matches Some(h) && file_url_of(x[1], h) && file_url_of(y[1], h)),
{
    if hook is Some {
        assert forall|i: int| 0 <= i < x.len() && !(i == 1 && x[0] == "--import"@) implies x[i] == y[i] by {
            if i >= 3 {
                assert(x.subrange(3, x.len() as int)[i - 3] == x[i]);
                assert(y.subrange(3, y.len() as int)[i - 3] == y[i]);
            }
        }
    }
}

proof fn lemma_node_plans_same(
    a: LaunchPlan,
    b: LaunchPlan,
    app_data: PathView,
    node: PathView,
    bin: PathView,
    prefix: PathView,
    hook: Option<PathView>,
    cli: Seq<Seq<char>>,
)
    requires
        node_plan(a, app_data, node, bin, prefix, hook, cli),
        node_plan(b, app_data, node, bin, prefix, hook, cli),
    ensures
        same_plan(a, b),
{
    lemma_node_args_same(texts(a.args@), texts(b.args@), bin, hook, cli);
    if texts(a.args@).len() > 1 && texts(a.args@)[1] != texts(b.args@)[1] {
        let h = hook->Some_0;
        assert(file_url_of(texts(a.args@)[1], h) && file_url_of(texts(b.args@)[1], h));
    }
}

/// On a file system and a `PATH` that do not change between calls, every result that
/// `resolve_cli`'s contract admits for the same inputs is the same: the same error, or
/// plans that differ at most in the text of the resolve hook's file URL. The same
/// holds between `resolve_launch` and `resolve_cli` on `web --host <host> --port
/// <port>`, whose contracts are this relation on that command line.
pub proof fn law_resolution_is_determined<
    P: Fn(&NativePath) -> EntryKind,
    W: Fn(&str) -> Option<NativePath>,
    L: Fn(&NativePath, &NativePath),
>(
    probe: P,
    disk: spec_fn(PathView) -> EntryKind,
    which: W,
    found: spec_fn(Seq<char>) -> Option<PathView>,
    link: L,
    app_data: PathView,
    hints: Seq<PathView>,
    cli: Seq<Seq<char>>,
    env: LaunchEnv,
    r1: Result<LaunchPlan, String>,
    r2: Result<LaunchPlan, String>,
)
    requires
        fixed_disk(probe, disk),
        fixed_lookup(which, found),
        resolved(r1, app_data, hints, cli, env, probe, which, link),
        resolved(r2, app_data, hints, cli, env, probe, which, link),
    ensures
        match (r1, r2) {
            (Ok(a), Ok(b)) => same_plan(a, b),
            (Err(e1), Err(e2)) => e1@ == e2@,
            _ => false,
        },
{
    let roots = runtime_roots(hints);
    let os = env.os@;
    let prefix = prefix_of(app_data);
    let node_env = opt_path(env.node);
    lemma_which_unique(which, found, "pnpm.cmd"@);
    lemma_which_unique(which, found, "pnpm"@);
    lemma_which_unique(which, found, "node"@);
    lemma_which_unique(which, found, "node.exe"@);
    lemma_file_answers_agree(probe, disk, bin_under(prefix));
    if let Some(e) = node_env {
        lemma_file_answers_agree(probe, disk, e);
    }
    if let Some(c) = env.checkout {
        lemma_file_answers_agree(probe, disk, workspace_file(c@));
        lemma_file_answers_agree(probe, disk, cli_dir(c@));
    }
    if env.desktop_bin is None {
        if exists|k: int| #[trigger] first_bundle(probe, roots, os, k) {
            let k = choose|k: int| #[trigger] first_bundle(probe, roots, os, k);
            lemma_file_answers_agree(probe, disk, bundled_node(roots[k], os));
            lemma_file_answers_agree(probe, disk, bundled_bin(roots[k]));
            assert(!bundle_missing(probe, roots[k], os));
            let k1 = choose|j: int| #[trigger] first_bundle(probe, roots, os, j)
                && bundle_outcome(r1, app_data, hints, cli, os, probe, link, roots[j]);
            let k2 = choose|j: int| #[trigger] first_bundle(probe, roots, os, j)
                && bundle_outcome(r2, app_data, hints, cli, os, probe, link, roots[j]);
            lemma_first_bundle_unique(probe, disk, roots, os, k1, k);
            lemma_first_bundle_unique(probe, disk, roots, os, k2, k);
            let a = r1->Ok_0;
            let b = r2->Ok_0;
            let bundle = roots[k].join("runtime"@).join("dsh"@);
            let h1 = choose|h: Option<PathView>| #[trigger] hook_found(probe, hints, h)
                && node_plan(a, app_data, bundled_node(roots[k], os), bundled_bin(roots[k]), bundle, h, cli);
            let h2 = choose|h: Option<PathView>| #[trigger] hook_found(probe, hints, h)
                && node_plan(b, app_data, bundled_node(roots[k], os), bundled_bin(roots[k]), bundle, h, cli);
            lemma_hook_unique(probe, disk, hints, h1, h2);
            lemma_node_plans_same(a, b, app_data, bundled_node(roots[k], os), bundled_bin(roots[k]), bundle, h1, cli);
        } else if !(env.checkout matches Some(c) && checkout_seen(probe, c@, true)) {
            if r1 is Ok && r2 is Ok {
                let a = r1->Ok_0;
                let b = r2->Ok_0;
                let h1 = choose|h: Option<PathView>| #[trigger] hook_found(probe, hints, h)
                    && node_plan(a, app_data, a.program@, bin_under(prefix), prefix, h, cli);
                let h2 = choose|h: Option<PathView>| #[trigger] hook_found(probe, hints, h)
                    && node_plan(b, app_data, b.program@, bin_under(prefix), prefix, h, cli);
                lemma_hook_unique(probe, disk, hints, h1, h2);
                assert(a.program@ == b.program@);
                lemma_node_plans_same(a, b, app_data, a.program@, bin_under(prefix), prefix, h1, cli);
            }
        }
    }
}

} // verus!

verus! {

// ---------------------------------------------------------------- where the hook is, what pruning drops

/// `<dir>/hooks/resolve-register.mjs`.
pub open spec fn hook_file_in(dir: PathView) -> PathView {
    dir.join("hooks"@).join("resolve-register.mjs"@)
}

/// The resolve hook is looked for hint by hint, at `<hint>/hooks/resolve-register.mjs`
/// and then at `<hint>/src-tauri/hooks/resolve-register.mjs`: on a file system that
/// does not change, when none of those places before hint `i` holds a file, the hook
/// found is the first of the two places of hint `i` that holds one.
pub proof fn law_resolve_hook_locations<P: Fn(&NativePath) -> EntryKind>(
    probe: P,
    disk: spec_fn(PathView) -> EntryKind,
    hints: Seq<PathView>,
    i: int,
    r: Option<PathView>,
)
    requires
        fixed_disk(probe, disk),
        hook_found(probe, hints, r),
        0 <= i < hints.len(),
        forall|j: int| 0 <= j < i ==> disk(#[trigger] hook_file_in(hints[j])) != EntryKind::File
            && disk(hook_file_in(hints[j].join("src-tauri"@))) != EntryKind::File,
        disk(hook_file_in(hints[i])) == EntryKind::File
            || disk(hook_file_in(hints[i].join("src-tauri"@))) == EntryKind::File,
    ensures
        r == Some(
            if disk(hook_file_in(hints[i])) == EntryKind::File {
                hook_file_in(hints[i])
            } else {
                hook_file_in(hints[i].join("src-tauri"@))
            },
        ),
{
    let c = hook_candidates(hints);
    let t: int = if disk(hook_file_in(hints[i])) == EntryKind::File { 2 * i } else { 2 * i + 1 };
    assert(c[2 * i] == hook_file_in(hints[i]));
    assert(c[2 * i + 1] == hook_file_in(hints[i].join("src-tauri"@)));
    assert(disk(c[t]) == EntryKind::File);
    assert forall|k: int| 0 <= k < t implies disk(#[trigger] c[k]) != EntryKind::File by {
        let j = k / 2;
        if j < i {
            assert(disk(hook_file_in(hints[j])) != EntryKind::File);
            if k % 2 == 0 {
                assert(c[k] == hook_file_in(hints[j]));
            } else {
                assert(c[k] == hook_file_in(hints[j].join("src-tauri"@)));
            }
        } else {
            assert(k == 2 * i);
        }
    }
    match r {
        Some(h) => {
            let k = choose|k: int| #[trigger] first_file(probe, c, k) && h == c[k];
            lemma_fixed_disk_seen(probe, disk, c[k], EntryKind::File);
            if k > t {
                assert(no_file_seen(probe, c[t]));
                lemma_file_answers_agree(probe, disk, c[t]);
                lemma_no_file_seen_disk(probe, disk, c[t]);
            }
        },
        None => {
            assert(no_file_seen(probe, c[t]));
            lemma_no_file_seen_disk(probe, disk, c[t]);
        },
    }
}

proof fn lemma_no_file_seen_disk<P: Fn(&NativePath) -> EntryKind>(
    probe: P,
    disk: spec_fn(PathView) -> EntryKind,
    v: PathView,
)
    requires
        fixed_disk(probe, disk),
        no_file_seen(probe, v),
    ensures
        disk(v) != EntryKind::File,
{
    if crate::path::seen(probe, v, EntryKind::Missing) {
        lemma_fixed_disk_seen(probe, disk, v, EntryKind::Missing);
    } else if crate::path::seen(probe, v, EntryKind::Dir) {
        lemma_fixed_disk_seen(probe, disk, v, EntryKind::Dir);
    } else {
        lemma_fixed_disk_seen(probe, disk, v, EntryKind::Other);
    }
}

/// A launch through Node (the bundled runtime or the managed prefix: no
/// `DSH_DESKTOP_BIN`, no `DSH_CHECKOUT`) passes the resolve hook found as above:
/// its arguments start with `--import` and the file URL of that hook.
pub proof fn law_node_launch_imports_hook<
    P: Fn(&NativePath) -> EntryKind,
    W: Fn(&str) -> Option<NativePath>,
    L: Fn(&NativePath, &NativePath),
>(
    probe: P,
    disk: spec_fn(PathView) -> EntryKind,
    which: W,
    link: L,
    app_data: PathView,
    hints: Seq<PathView>,
    cli: Seq<Seq<char>>,
    env: LaunchEnv,
    r: Result<LaunchPlan, String>,
    i: int,
)
    requires
        fixed_disk(probe, disk),
        resolved(r, app_data, hints, cli, env, probe, which, link),
        env.desktop_bin is None,
        env.checkout is None,
        r is Ok,
        0 <= i < hints.len(),
        forall|j: int| 0 <= j < i ==> disk(#[trigger] hook_file_in(hints[j])) != EntryKind::File
            && disk(hook_file_in(hints[j].join("src-tauri"@))) != EntryKind::File,
        disk(hook_file_in(hints[i])) == EntryKind::File
            || disk(hook_file_in(hints[i].join("src-tauri"@))) == EntryKind::File,
    ensures
        texts(r->Ok_0.args@).len() >= 2,
        texts(r->Ok_0.args@)[0] == "--import"@,
        file_url_of(
            texts(r->Ok_0.args@)[1],
            if disk(hook_file_in(hints[i])) == EntryKind::File {
                hook_file_in(hints[i])
            } else {
                hook_file_in(hints[i].join("src-tauri"@))
            },
        ),
{
    let roots = runtime_roots(hints);
    let os = env.os@;
    let plan = r->Ok_0;
    if exists|k: int| #[trigger] first_bundle(probe, roots, os, k)
        && bundle_outcome(r, app_data, hints, cli, os, probe, link, roots[k]) {
        let k = choose|k: int| #[trigger] first_bundle(probe, roots, os, k)
            && bundle_outcome(r, app_data, hints, cli, os, probe, link, roots[k]);
        let h = choose|h: Option<PathView>| #[trigger] hook_found(probe, hints, h) && node_plan(
            plan,
            app_data,
            bundled_node(roots[k], os),
            bundled_bin(roots[k]),
            roots[k].join("runtime"@).join("dsh"@),
            h,
            cli,
        );
        law_resolve_hook_locations(probe, disk, hints, i, h);
    } else {
        let prefix = prefix_of(app_data);
        let h = choose|h: Option<PathView>| #[trigger] hook_found(probe, hints, h)
            && node_plan(plan, app_data, plan.program@, bin_under(prefix), prefix, h, cli);
        law_resolve_hook_locations(probe, disk, hints, i, h);
    }
}

proof fn lemma_dropped_contains(entries: Seq<Option<Seq<char>>>, keep: Seq<bool>, i: int)
    requires
        keep.len() == entries.len(),
        0 <= i < entries.len(),
        !keep[i],
        entries[i] is Some,
    ensures
        dropped(entries, keep).contains(entries[i]->Some_0),
    decreases entries.len(),
{
    let n = entries.len() - 1;
    if i == n {
        assert(dropped(entries, keep).last() == entries[i]->Some_0);
    } else {
        lemma_dropped_contains(entries.drop_last(), keep.drop_last(), i);
        let d0 = dropped(entries.drop_last(), keep.drop_last());
        let w = choose|w: int| 0 <= w < d0.len() && d0[w] == entries[i]->Some_0;
        assert(dropped(entries, keep)[w] == entries[i]->Some_0);
    }
}

/// `<app_data>/dsh-home/profiles/web/node_modules`.
pub open spec fn profile_modules(app_data: PathView) -> PathView {
    app_data.join("dsh-home"@).join("profiles"@).join("web"@).join("node_modules"@)
}

/// Pruning drops exactly the missing starter bundles. On a file system that does not
/// change: a bundle entry `dsh-web-ui`, `dsh-better-sidebar` or
/// `@dsh-external/dsh-visualize` whose `package.json` under the web profile's
/// `node_modules` is not a file is dropped and reported among the removed names;
/// one whose `package.json` is a file stays; every other entry (non-strings,
/// `@deepseek-ai/` bundles, other packages) stays.
pub proof fn law_pruning_drops_missing_starters<P: Fn(&NativePath) -> EntryKind>(
    probe: P,
    disk: spec_fn(PathView) -> EntryKind,
    app_data: PathView,
    entries: Seq<Option<Seq<char>>>,
    keep: Seq<bool>,
    i: int,
)
    requires
        fixed_disk(probe, disk),
        pruning_choice(probe, app_data, entries, keep),
        0 <= i < entries.len(),
        app_data.sep == '/' || app_data.sep == '\\',
    ensures
        ({
            let m = profile_modules(app_data);
            let manifest = match entries[i] {
                Some(n) => if n == "@dsh-external/dsh-visualize"@ {
                    m.join("@dsh-external"@).join("dsh-visualize"@).join("package.json"@)
                } else {
                    m.join(n).join("package.json"@)
                },
                None => m,
            };
            let starter = entries[i] == Some("dsh-web-ui"@) || entries[i] == Some("dsh-better-sidebar"@)
                || entries[i] == Some("@dsh-external/dsh-visualize"@);
            &&& starter && disk(manifest) != EntryKind::File ==> !keep[i] && dropped(entries, keep).contains(
                entries[i]->Some_0,
            )
            &&& starter && disk(manifest) == EntryKind::File ==> keep[i]
            &&& !starter ==> keep[i]
        }),
{
    reveal_strlit("dsh-web-ui");
    reveal_strlit("dsh-better-sidebar");
    reveal_strlit("@dsh-external/dsh-visualize");
    reveal_strlit("@deepseek-ai/dsh-client-ui-aqua");
    reveal_strlit("@deepseek-ai/");
    reveal_strlit("@dsh-external");
    reveal_strlit("dsh-visualize");
    let m = profile_modules(app_data);
    let e = entries[i];
    assert(web_profile(app_data).join("node_modules"@) == m);
    let sp = starter_packages();
    assert(sp[0] == "dsh-web-ui"@ && sp[1] == "@deepseek-ai/dsh-client-ui-aqua"@);
    assert(sp[2] == "dsh-better-sidebar"@ && sp[3] == "@dsh-external/dsh-visualize"@);
    if let Some(n) = e {
        if n == "dsh-web-ui"@ || n == "dsh-better-sidebar"@ {
            assert(n[0] == 'd');
            assert(!(n[0] == '@'));
            assert(sp.contains(n));
            assert(!starts_with(n, "@deepseek-ai/"@)) by {
                if n.len() >= 13 {
                    assert(n.subrange(0, 13)[0] == n[0]);
                }
            }
            assert(prunable(e));
            assert(installed_manifest(app_data, n) == m.join(n).join("package.json"@));
        } else if n == "@dsh-external/dsh-visualize"@ {
            assert(sp.contains(n));
            assert(!starts_with(n, "@deepseek-ai/"@)) by {
                assert(n.subrange(0, 13)[2] == n[2]);
            }
            assert(prunable(e));
            let rest = n.drop_first();
            crate::text::lemma_find_char(rest, '/');
            assert(rest[12] == '/');
            assert forall|j: int| 0 <= j < 12 implies rest[j] != '/' by {}
            assert(find_char(rest, '/') == Some(12int));
            assert(rest.subrange(0, 12) =~= "@dsh-external"@.drop_first());
            assert(seq!['@'] + rest.subrange(0, 12) =~= "@dsh-external"@);
            assert(rest.subrange(13, rest.len() as int) =~= "dsh-visualize"@);
            assert(installed_manifest(app_data, n)
                == m.join("@dsh-external"@).join("dsh-visualize"@).join("package.json"@));
        } else {
            assert(!prunable(e)) by {
                if sp.contains(n) {
                    let w = choose|w: int| 0 <= w < sp.len() && sp[w] == n;
                    assert(w == 1);
                    assert(n.subrange(0, 13) =~= "@deepseek-ai/"@);
                }
            }
            assert(!prunable(e));
        }
    }
    if prunable(e) {
        let mf = installed_manifest(app_data, e->Some_0);
        if keep[i] {
            assert(file_seen(probe, mf));
            lemma_fixed_disk_seen(probe, disk, mf, EntryKind::File);
        } else {
            lemma_no_file_seen_disk(probe, disk, mf);
            lemma_dropped_contains(entries, keep, i);
        }
    }
}

} // verus!
