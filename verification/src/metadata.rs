//! What cargo reports of a project: the packages that `cargo metadata`
//! lists, the artifacts that `cargo check` builds, and what a build takes
//! from them.

use serde_json::{from_slice, Value};
use vstd::prelude::*;

use crate::project::{dashes_to_underscores, replace_dashes, ProjectInfo};

verus! {

// ---------------------------------------------------------------------------
// Records.
// ---------------------------------------------------------------------------

/// A build target of a package, as `cargo metadata` lists it: its kinds,
/// each a string where the entry is one, and its entry file. A field that
/// the output lacks, or holds as something else, is `None`.
#[derive(Clone, Debug)]
pub struct MetadataTarget {
    pub kinds: Option<Vec<Option<String>>>,
    pub src_path: Option<String>,
}

/// A package, as `cargo metadata` lists it. A field that the output lacks,
/// or holds as something other than a string or a list, is `None`.
#[derive(Clone, Debug)]
pub struct MetadataPackage {
    pub name: Option<String>,
    pub edition: Option<String>,
    pub manifest_path: Option<String>,
    pub targets: Option<Vec<MetadataTarget>>,
}

/// One message of `cargo check --message-format=json`: why it was sent,
/// the name and kinds of its target, and the files that were built.
#[derive(Clone, Debug)]
pub struct CargoMessage {
    pub reason: Option<String>,
    pub target_name: Option<String>,
    pub target_kinds: Option<Vec<Option<String>>>,
    pub filenames: Option<Vec<Option<String>>>,
}

// ---------------------------------------------------------------------------
// Reading JSON.
// ---------------------------------------------------------------------------

/// What `serde_json::from_slice` reads from the output of `cargo metadata`:
/// the text of its error where the output is no JSON, else the list under
/// `packages`, where there is one.
pub uninterp spec fn metadata_of(bytes: Seq<u8>) -> Result<Option<Vec<MetadataPackage>>, String>;

/// What `serde_json::from_str` reads from one line of `cargo check`
/// output, taken as UTF-8 with bad bytes replaced and without the
/// whitespace around it: nothing where the line is no JSON.
pub uninterp spec fn cargo_message_of(line: Seq<u8>) -> Option<CargoMessage>;

/// `serde_json::from_slice` on the output of `cargo metadata`, with the
/// fields that a build reads picked out; a parse error gives its text.
#[verifier::external_body]
fn parse_metadata(bytes: &[u8]) -> (r: Result<Option<Vec<MetadataPackage>>, String>)
    ensures
        r == metadata_of(bytes@),
{
    let v: Value = from_slice(bytes).map_err(|e| e.to_string())?;
    let text = |x: &Value| x.as_str().map(String::from);
    Ok(v["packages"].as_array().map(|a| a.iter().map(|p| MetadataPackage {
        name: text(&p["name"]),
        edition: text(&p["edition"]),
        manifest_path: text(&p["manifest_path"]),
        targets: p["targets"].as_array().map(|a| a.iter().map(|t| MetadataTarget {
            kinds: t["kind"].as_array().map(|a| a.iter().map(text).collect()),
            src_path: text(&t["src_path"]),
        }).collect()),
    }).collect()))
}

/// `serde_json::from_str` on one line of `cargo check` output, read as
/// UTF-8 with bad bytes replaced and trimmed, with the fields that a build
/// reads picked out; nothing where the line is no JSON.
#[verifier::external_body]
fn parse_cargo_message(line: &[u8]) -> (r: Option<CargoMessage>)
    ensures
        r == cargo_message_of(line@),
{
    let v: Value = serde_json::from_str(String::from_utf8_lossy(line).trim()).ok()?;
    let text = |x: &Value| x.as_str().map(String::from);
    let list = |x: &Value| x.as_array().map(|a| a.iter().map(text).collect());
    Some(CargoMessage {
        reason: text(&v["reason"]),
        target_name: text(&v["target"]["name"]),
        target_kinds: list(&v["target"]["kind"]),
        filenames: list(&v["filenames"]),
    })
}

// ---------------------------------------------------------------------------
// Searching lists.
// ---------------------------------------------------------------------------

/// `o` is the string `s`.
pub open spec fn text_is(o: Option<String>, s: Seq<char>) -> bool {
    o matches Some(x) && x@ == s
}

/// Some entry of `v` is the string `s`.
pub open spec fn has_text(v: Seq<Option<String>>, s: Seq<char>) -> bool {
    exists|i: int| 0 <= i < v.len() && text_is(#[trigger] v[i], s)
}

/// Some entry of the list `o` is the string `s`.
pub open spec fn lists_text(o: Option<Vec<Option<String>>>, s: Seq<char>) -> bool {
    match o {
        Some(v) => has_text(v@, s),
        None => false,
    }
}

/// `i` is the first place of `s` where `p` holds.
pub open spec fn first_at<A>(s: Seq<A>, p: spec_fn(A) -> bool, i: int) -> bool {
    &&& 0 <= i < s.len()
    &&& p(s[i])
    &&& forall|j: int| 0 <= j < i ==> !p(#[trigger] s[j])
}

/// The first place of `s` where `p` holds, if there is one.
pub open spec fn first_of<A>(s: Seq<A>, p: spec_fn(A) -> bool) -> Option<int> {
    if exists|i: int| first_at(s, p, i) {
        Some(choose|i: int| first_at(s, p, i))
    } else {
        None
    }
}

proof fn lemma_first_found<A>(s: Seq<A>, p: spec_fn(A) -> bool, i: int)
    requires
        first_at(s, p, i),
    ensures
        first_of(s, p) == Some(i),
{
    let k = choose|k: int| first_at(s, p, k);
    if k < i {
        assert(!p(s[k]));
    } else if i < k {
        assert(!p(s[i]));
    }
}

proof fn lemma_first_none<A>(s: Seq<A>, p: spec_fn(A) -> bool)
    requires
        forall|j: int| 0 <= j < s.len() ==> !p(#[trigger] s[j]),
    ensures
        first_of(s, p) is None,
{
}

/// Whether `o` is the string `s`.
fn text_equals(o: &Option<String>, s: &String) -> (r: bool)
    ensures
        r == text_is(*o, s@),
{
    match o {
        Some(x) => *x == *s,
        None => false,
    }
}

/// Whether some entry of the list `o` is the string `s`.
fn list_includes(o: &Option<Vec<Option<String>>>, s: &String) -> (r: bool)
    ensures
        r == lists_text(*o, s@),
{
    match o {
        Some(v) => {
            let mut i: usize = 0;
            while i < v.len()
                invariant
                    *o == Some(*v),
                    i <= v@.len(),
                    forall|j: int| 0 <= j < i ==> !text_is(#[trigger] v@[j], s@),
                decreases v@.len() - i,
            {
                if text_equals(&v[i], s) {
                    assert(text_is(v@[i as int], s@));
                    assert(has_text(v@, s@));
                    return true;
                }
                i = i + 1;
            }
            assert(!has_text(v@, s@));
            false
        },
        None => false,
    }
}

// ---------------------------------------------------------------------------
// The target project.
// ---------------------------------------------------------------------------

/// The package whose manifest is at `manifest`.
pub open spec fn at_manifest(manifest: Seq<char>) -> spec_fn(MetadataPackage) -> bool {
    |p: MetadataPackage| text_is(p.manifest_path, manifest)
}

/// A target of kind `k`.
pub open spec fn of_kind(k: Seq<char>) -> spec_fn(MetadataTarget) -> bool {
    |t: MetadataTarget| lists_text(t.kinds, k)
}

/// The target that a build takes, with its crate type: the first library
/// target, else the first binary one.
pub open spec fn chosen_target(ts: Seq<MetadataTarget>) -> Option<(int, Seq<char>)> {
    match first_of(ts, of_kind("lib"@)) {
        Some(i) => Some((i, "lib"@)),
        None => match first_of(ts, of_kind("bin"@)) {
            Some(i) => Some((i, "bin"@)),
            None => None,
        },
    }
}

/// What a build takes from package `p`: its name, the name with dashes
/// made underscores, its edition (2021 where it names none), and the crate
/// type and entry file of its chosen target; or the error where one of
/// them is missing.
pub open spec fn package_outcome(p: MetadataPackage, r: Result<ProjectInfo, String>) -> bool {
    match p.name {
        None => r matches Err(e) && e@ == "package has no `name`"@,
        Some(name) => match p.targets {
            None => r matches Err(e) && e@ == "package has no targets"@,
            Some(ts) => match chosen_target(ts@) {
                None => r matches Err(e) && e@ == "no lib or bin target"@,
                Some((t, ty)) => match ts@[t].src_path {
                    None => r matches Err(e) && e@ == "target has no src_path"@,
                    Some(src) => r matches Ok(info) && {
                        &&& info.package_name@ == name@
                        &&& info.crate_name@ == dashes_to_underscores(name@)
                        &&& info.edition@ == (match p.edition {
                            Some(e) => e@,
                            None => "2021"@,
                        })
                        &&& info.crate_type@ == ty
                        &&& info.source_path@ == src@
                    },
                },
            },
        },
    }
}

/// The first target of `ts` whose kinds include `kind`.
fn first_target_of_kind(ts: &Vec<MetadataTarget>, kind: &String) -> (r: Option<usize>)
    ensures
        r matches Some(i) ==> first_of(ts@, of_kind(kind@)) == Some(i as int),
        r is None ==> first_of(ts@, of_kind(kind@)) is None,
{
    let mut i: usize = 0;
    while i < ts.len()
        invariant
            i <= ts@.len(),
            forall|j: int| 0 <= j < i ==> !of_kind(kind@)(#[trigger] ts@[j]),
        decreases ts@.len() - i,
    {
        if list_includes(&ts[i].kinds, kind) {
            proof {
                lemma_first_found(ts@, of_kind(kind@), i as int);
            }
            return Some(i);
        }
        i = i + 1;
    }
    proof {
        lemma_first_none(ts@, of_kind(kind@));
    }
    None
}

/// The build target of package `p`; see `package_outcome`.
fn project_from_package(p: &MetadataPackage) -> (r: Result<ProjectInfo, String>)
    ensures
        package_outcome(*p, r),
{
    proof {
        reveal_strlit("package has no `name`");
        reveal_strlit("package has no targets");
        reveal_strlit("no lib or bin target");
        reveal_strlit("target has no src_path");
        reveal_strlit("lib");
        reveal_strlit("bin");
        reveal_strlit("2021");
    }
    let name = match &p.name {
        Some(n) => n,
        None => return Err(String::from_str("package has no `name`")),
    };
    let ts = match &p.targets {
        Some(ts) => ts,
        None => return Err(String::from_str("package has no targets")),
    };
    let lib = String::from_str("lib");
    let bin = String::from_str("bin");
    let first_lib = first_target_of_kind(ts, &lib);
    let (t, ty) = match first_lib {
        Some(t) => (t, "lib"),
        None => match first_target_of_kind(ts, &bin) {
            Some(t) => (t, "bin"),
            None => return Err(String::from_str("no lib or bin target")),
        },
    };
    assert(lib@ == "lib"@ && bin@ == "bin"@);
    assert(chosen_target(ts@) == Some((t as int, ty@)));
    let src = match &ts[t].src_path {
        Some(s) => s,
        None => return Err(String::from_str("target has no src_path")),
    };
    let edition = match &p.edition {
        Some(e) => e.clone(),
        None => String::from_str("2021"),
    };
    Ok(ProjectInfo {
        package_name: name.clone(),
        crate_name: replace_dashes(name.as_str()),
        edition,
        crate_type: String::from_str(ty),
        source_path: src.clone(),
    })
}

/// The build target that `cargo metadata` gives for the project whose
/// manifest is at `manifest`: the first package listed with that manifest
/// decides (see `package_outcome`); where none has it, the error says so.
pub fn project_from_metadata(pkgs: &Vec<MetadataPackage>, manifest: &str) -> (r: Result<
    ProjectInfo,
    String,
>)
    ensures
        match first_of(pkgs@, at_manifest(manifest@)) {
            None => r matches Err(e) && e@ == "no package with manifest "@ + manifest@
                + " found in `cargo metadata` output"@,
            Some(i) => package_outcome(pkgs@[i], r),
        },
{
    let m = String::from_str(manifest);
    let mut i: usize = 0;
    while i < pkgs.len()
        invariant
            i <= pkgs@.len(),
            m@ == manifest@,
            forall|j: int| 0 <= j < i ==> !at_manifest(manifest@)(#[trigger] pkgs@[j]),
        decreases pkgs@.len() - i,
    {
        if text_equals(&pkgs[i].manifest_path, &m) {
            proof {
                lemma_first_found(pkgs@, at_manifest(manifest@), i as int);
            }
            return project_from_package(&pkgs[i]);
        }
        i = i + 1;
    }
    proof {
        lemma_first_none(pkgs@, at_manifest(manifest@));
    }
    let mut msg = String::from_str("no package with manifest ");
    msg.append(manifest);
    msg.append(" found in `cargo metadata` output");
    proof {
        reveal_strlit("no package with manifest ");
        reveal_strlit(" found in `cargo metadata` output");
    }
    Err(msg)
}


/// The packages that the output of `cargo metadata` lists: where the
/// output is no JSON, an error that gives the parse error; none where it
/// has no list of packages.
pub fn packages_from_metadata(bytes: &[u8]) -> (r: Result<Vec<MetadataPackage>, String>)
    ensures
        match metadata_of(bytes@) {
            Err(e) => r matches Err(m) && m@ == "cannot parse `cargo metadata` output: "@ + e@,
            Ok(None) => r matches Ok(v) && v@.len() == 0,
            Ok(Some(p)) => r == Ok::<Vec<MetadataPackage>, String>(p),
        },
{
    match parse_metadata(bytes) {
        Err(e) => {
            let mut m = String::from_str("cannot parse `cargo metadata` output: ");
            m.append(e.as_str());
            proof {
                reveal_strlit("cannot parse `cargo metadata` output: ");
            }
            Err(m)
        },
        Ok(None) => Ok(Vec::new()),
        Ok(Some(p)) => Ok(p),
    }
}

// ---------------------------------------------------------------------------
// The outside crates that were built.
// ---------------------------------------------------------------------------

/// `s` ends with `suffix`.
pub open spec fn ends_in(s: Seq<char>, suffix: Seq<char>) -> bool {
    s.len() >= suffix.len() && s.subrange(s.len() - suffix.len(), s.len() as int) == suffix
}

/// A file that a build can load for a target: the shared library of a
/// procedural macro, else the metadata or library of a crate.
pub open spec fn loadable(f: Seq<char>, proc_macro: bool) -> bool {
    if proc_macro {
        ends_in(f, ".dll"@) || ends_in(f, ".so"@) || ends_in(f, ".dylib"@)
    } else {
        ends_in(f, ".rmeta"@) || ends_in(f, ".rlib"@)
    }
}

/// An entry of a file list that names a file a build can load.
pub open spec fn loadable_entry(proc_macro: bool) -> spec_fn(Option<String>) -> bool {
    |o: Option<String>| o matches Some(f) && loadable(f@, proc_macro)
}

/// The string of `o`, empty where there is none.
pub open spec fn text_of(o: Option<String>) -> Seq<char> {
    match o {
        Some(x) => x@,
        None => Seq::empty(),
    }
}

/// The entries of list `o`, none where there is no list.
pub open spec fn entries(o: Option<Vec<Option<String>>>) -> Seq<Option<String>> {
    match o {
        Some(v) => v@,
        None => Seq::empty(),
    }
}

/// What a build takes from message `m`: for a built artifact of another
/// target than `package`, the target's name and the first file it can
/// load, where there is one.
pub open spec fn artifact_of(m: CargoMessage, package: Seq<char>) -> Option<(Seq<char>, Seq<char>)> {
    if text_is(m.reason, "compiler-artifact"@) {
        match m.target_name {
            Some(name) => if name@ == package {
                None
            } else {
                let files = entries(m.filenames);
                match first_of(files, loadable_entry(lists_text(m.target_kinds, "proc-macro"@))) {
                    Some(i) => Some((name@, text_of(files[i]))),
                    None => None,
                }
            },
            None => None,
        }
    } else {
        None
    }
}

/// The outside crates that messages `msgs` give, in order: for each
/// artifact, its name with dashes made underscores and its file, unless an
/// entry before it already bears the name just as the artifact gives it.
pub open spec fn externs_spec(msgs: Seq<Option<CargoMessage>>, package: Seq<char>) -> Seq<
    (Seq<char>, Seq<char>),
>
    decreases msgs.len(),
{
    if msgs.len() == 0 {
        Seq::empty()
    } else {
        let acc = externs_spec(msgs.drop_last(), package);
        match msgs.last() {
            Some(m) => match artifact_of(m, package) {
                Some((name, f)) => if exists|i: int| 0 <= i < acc.len() && (#[trigger] acc[i]).0 == name {
                    acc
                } else {
                    acc.push((dashes_to_underscores(name), f))
                },
                None => acc,
            },
            None => acc,
        }
    }
}

/// Pairs of strings as pairs of their characters.
pub open spec fn pairs_view(v: Seq<(String, String)>) -> Seq<(Seq<char>, Seq<char>)> {
    v.map_values(|p: (String, String)| (p.0@, p.1@))
}

/// Whether `s` ends with `suffix`.
fn ends_with_text(s: &str, suffix: &str) -> (r: bool)
    ensures
        r == ends_in(s@, suffix@),
{
    let n = s.unicode_len();
    let k = suffix.unicode_len();
    if n < k {
        return false;
    }
    let mut i: usize = 0;
    while i < k
        invariant
            n == s@.len(),
            k == suffix@.len(),
            k <= n,
            i <= k,
            forall|j: int| 0 <= j < i ==> s@[n - k + j] == suffix@[j],
        decreases k - i,
    {
        if s.get_char(n - k + i) != suffix.get_char(i) {
            assert(s@.subrange(n - k, n as int)[i as int] != suffix@[i as int]);
            return false;
        }
        i = i + 1;
    }
    assert(s@.subrange(n - k, n as int) =~= suffix@);
    true
}

/// Whether a build can load file `f`; see `loadable`.
fn is_loadable(f: &String, proc_macro: bool) -> (r: bool)
    ensures
        r == loadable(f@, proc_macro),
{
    proof {
        reveal_strlit(".dll");
        reveal_strlit(".so");
        reveal_strlit(".dylib");
        reveal_strlit(".rmeta");
        reveal_strlit(".rlib");
    }
    let s = f.as_str();
    if proc_macro {
        ends_with_text(s, ".dll") || ends_with_text(s, ".so") || ends_with_text(s, ".dylib")
    } else {
        ends_with_text(s, ".rmeta") || ends_with_text(s, ".rlib")
    }
}

/// The first file of list `files` that a build can load.
fn chosen_file(files: &Option<Vec<Option<String>>>, proc_macro: bool) -> (r: Option<String>)
    ensures
        match first_of(entries(*files), loadable_entry(proc_macro)) {
            Some(i) => r matches Some(f) && f@ == text_of(entries(*files)[i]),
            None => r is None,
        },
{
    let v = match files {
        Some(v) => v,
        None => {
            proof {
                lemma_first_none(entries(*files), loadable_entry(proc_macro));
            }
            return None;
        },
    };
    let mut i: usize = 0;
    while i < v.len()
        invariant
            entries(*files) == v@,
            i <= v@.len(),
            forall|j: int| 0 <= j < i ==> !loadable_entry(proc_macro)(#[trigger] v@[j]),
        decreases v@.len() - i,
    {
        if let Some(f) = &v[i] {
            if is_loadable(f, proc_macro) {
                proof {
                    lemma_first_found(v@, loadable_entry(proc_macro), i as int);
                }
                return Some(f.clone());
            }
        }
        i = i + 1;
    }
    proof {
        lemma_first_none(v@, loadable_entry(proc_macro));
    }
    None
}

/// What a build takes from message `m`; see `artifact_of`.
fn artifact(m: &CargoMessage, package: &String) -> (r: Option<(String, String)>)
    ensures
        match artifact_of(*m, package@) {
            Some((n, f)) => r matches Some(p) && p.0@ == n && p.1@ == f,
            None => r is None,
        },
{
    proof {
        reveal_strlit("compiler-artifact");
        reveal_strlit("proc-macro");
    }
    let reason = String::from_str("compiler-artifact");
    if !text_equals(&m.reason, &reason) {
        return None;
    }
    let name = match &m.target_name {
        Some(n) => n,
        None => return None,
    };
    if *name == *package {
        return None;
    }
    let proc_macro = list_includes(&m.target_kinds, &String::from_str("proc-macro"));
    match chosen_file(&m.filenames, proc_macro) {
        Some(f) => Some((name.clone(), f)),
        None => None,
    }
}

/// Whether some entry of `v` bears the name `name`.
fn names_include(v: &Vec<(String, String)>, name: &String) -> (r: bool)
    ensures
        r == exists|i: int| 0 <= i < v@.len() && (#[trigger] pairs_view(v@)[i]).0 == name@,
{
    let mut i: usize = 0;
    while i < v.len()
        invariant
            i <= v@.len(),
            forall|j: int| 0 <= j < i ==> (#[trigger] pairs_view(v@)[j]).0 != name@,
        decreases v@.len() - i,
    {
        if v[i].0 == *name {
            assert(pairs_view(v@)[i as int].0 == name@);
            return true;
        }
        i = i + 1;
    }
    false
}

/// The outside crates that the messages of `cargo check` give for a build
/// of package `package_name`; see `externs_spec`.
pub fn externs_of(msgs: &Vec<Option<CargoMessage>>, package_name: &str) -> (r: Vec<(String, String)>)
    ensures
        pairs_view(r@) == externs_spec(msgs@, package_name@),
{
    let package = String::from_str(package_name);
    let mut r: Vec<(String, String)> = Vec::new();
    let mut i: usize = 0;
    while i < msgs.len()
        invariant
            i <= msgs@.len(),
            package@ == package_name@,
            pairs_view(r@) == externs_spec(msgs@.take(i as int), package_name@),
        decreases msgs@.len() - i,
    {
        assert(msgs@.take(i + 1).drop_last() =~= msgs@.take(i as int));
        if let Some(m) = &msgs[i] {
            if let Some((name, f)) = artifact(m, &package) {
                if !names_include(&r, &name) {
                    let pair = (replace_dashes(name.as_str()), f);
                    let ghost before = r@;
                    r.push(pair);
                    assert(pairs_view(r@) =~= pairs_view(before).push((pair.0@, pair.1@)));
                }
            }
        }
        i = i + 1;
    }
    assert(msgs@.take(msgs@.len() as int) =~= msgs@);
    r
}

/// The lines of `s`, split at each newline byte as `split` on a slice
/// splits them: one more line than there are newlines.
pub open spec fn split_lines(s: Seq<u8>) -> Seq<Seq<u8>>
    decreases s.len(),
{
    if s.len() == 0 {
        seq![Seq::empty()]
    } else {
        let prev = split_lines(s.drop_last());
        if s.last() == 10u8 {
            prev.push(Seq::empty())
        } else {
            prev.update(prev.len() - 1, prev.last().push(s.last()))
        }
    }
}

/// The outside crates that the output of `cargo check
/// --message-format=json` gives for a build of package `package_name`:
/// each line is read as a message, and `externs_of` takes the messages.
pub fn externs_from_output(stdout: &[u8], package_name: &str) -> (r: Vec<(String, String)>)
    ensures
        pairs_view(r@) == externs_spec(
            split_lines(stdout@).map_values(|l: Seq<u8>| cargo_message_of(l)),
            package_name@,
        ),
{
    let mut msgs: Vec<Option<CargoMessage>> = Vec::new();
    let ghost mut lines: Seq<Seq<u8>> = Seq::empty();
    let mut start: usize = 0;
    let mut i: usize = 0;
    proof {
        assert(stdout@.take(0) =~= Seq::<u8>::empty());
        assert(stdout@.subrange(0, 0) =~= Seq::<u8>::empty());
        assert(split_lines(Seq::<u8>::empty()) =~= lines.push(Seq::<u8>::empty()));
    }
    while i < stdout.len()
        invariant
            start <= i <= stdout@.len(),
            split_lines(stdout@.take(i as int)) == lines.push(stdout@.subrange(start as int, i as int)),
            msgs@ == lines.map_values(|l: Seq<u8>| cargo_message_of(l)),
        decreases stdout@.len() - i,
    {
        assert(stdout@.take(i + 1).drop_last() =~= stdout@.take(i as int));
        if stdout[i] == 10u8 {
            let line = vstd::slice::slice_subrange(stdout, start, i);
            let msg = parse_cargo_message(line);
            let ghost before = msgs@;
            msgs.push(msg);
            proof {
                let l = stdout@.subrange(start as int, i as int);
                assert(lines.push(l).map_values(|x: Seq<u8>| cargo_message_of(x)) =~= before.push(
                    cargo_message_of(l),
                ));
                lines = lines.push(l);
                assert(stdout@.subrange(i + 1, i + 1) =~= Seq::<u8>::empty());
            }
            start = i + 1;
        } else {
            assert(stdout@.subrange(start as int, i + 1) =~= stdout@.subrange(start as int, i as int).push(
                stdout@[i as int],
            ));
        }
        i = i + 1;
    }
    let line = vstd::slice::slice_subrange(stdout, start, stdout.len());
    let msg = parse_cargo_message(line);
    let ghost before = msgs@;
    msgs.push(msg);
    proof {
        let l = stdout@.subrange(start as int, stdout@.len() as int);
        assert(lines.push(l).map_values(|x: Seq<u8>| cargo_message_of(x)) =~= before.push(
            cargo_message_of(l),
        ));
        lines = lines.push(l);
        assert(stdout@.take(stdout@.len() as int) =~= stdout@);
    }
    externs_of(&msgs, package_name)
}


/// `f` ends with the characters `suffix`.
pub open spec fn named_with(f: Seq<char>, suffix: Seq<char>) -> bool {
    f.len() >= suffix.len() && f.subrange(f.len() - suffix.len(), f.len() as int) == suffix
}

/// The files a build can link, by their names, and no others: for a
/// procedural macro its shared library, whichever platform built it (a name
/// ending in `.dll`, `.so` or `.dylib`); for any other crate its metadata
/// or library (a name ending in `.rmeta` or `.rlib`).
pub proof fn lemma_loadable_suffixes(f: Seq<char>)
    ensures
        loadable(f, true) <==> named_with(f, seq!['.', 'd', 'l', 'l']) || named_with(
            f,
            seq!['.', 's', 'o'],
        ) || named_with(f, seq!['.', 'd', 'y', 'l', 'i', 'b']),
        loadable(f, false) <==> named_with(f, seq!['.', 'r', 'm', 'e', 't', 'a']) || named_with(
            f,
            seq!['.', 'r', 'l', 'i', 'b'],
        ),
{
    reveal_strlit(".dll");
    reveal_strlit(".so");
    reveal_strlit(".dylib");
    reveal_strlit(".rmeta");
    reveal_strlit(".rlib");
    assert(".dll"@ =~= seq!['.', 'd', 'l', 'l']);
    assert(".so"@ =~= seq!['.', 's', 'o']);
    assert(".dylib"@ =~= seq!['.', 'd', 'y', 'l', 'i', 'b']);
    assert(".rmeta"@ =~= seq!['.', 'r', 'm', 'e', 't', 'a']);
    assert(".rlib"@ =~= seq!['.', 'r', 'l', 'i', 'b']);
}

/// A procedural macro built as a `.dll` is linked: the artifact message of
/// a procedural-macro target other than the one being built, whose one
/// file is a `.dll`, gives that target's name and that file.
pub proof fn lemma_proc_macro_dll_linked(m: CargoMessage, package: Seq<char>, name: String, f: String)
    requires
        text_is(m.reason, "compiler-artifact"@),
        m.target_name == Some(name),
        name@ != package,
        lists_text(m.target_kinds, "proc-macro"@),
        entries(m.filenames) == seq![Some(f)],
        named_with(f@, seq!['.', 'd', 'l', 'l']),
    ensures
        artifact_of(m, package) == Some((name@, f@)),
{
    lemma_loadable_suffixes(f@);
    let files = entries(m.filenames);
    assert(loadable_entry(true)(files[0]));
    lemma_first_found(files, loadable_entry(true), 0);
}

} // verus!
