//! What the compiler is asked to build: the target project's names and
//! entry file, and the arguments handed to the Rust compiler.

use vstd::prelude::*;

verus! {

/// The target of a build.
#[derive(Debug)]
pub struct ProjectInfo {
    /// The package name of the manifest, which may hold dashes.
    pub package_name: String,
    pub crate_name: String,
    pub edition: String,
    /// `lib` or `bin`.
    pub crate_type: String,
    pub source_path: String,
}

/// What a path on disk is.
#[derive(Clone, Copy, Debug, PartialEq, Eq, Structural)]
pub enum PathKind {
    File,
    Dir,
    Missing,
}

/// The outcome of looking at the path of a target.
#[derive(Debug)]
pub enum ProjectLoad {
    /// A single source file: everything follows from its name.
    Loaded(ProjectInfo),
    /// A project directory: its manifest's metadata decides.
    NeedsMetadata,
    /// Nothing is at the path; the message says so.
    Failed(String),
}

pub open spec fn dot_rs() -> Seq<char> {
    seq!['.', 'r', 's']
}

/// `s` without every trailing `.rs`.
pub open spec fn trim_rs(s: Seq<char>) -> Seq<char>
    decreases s.len(),
{
    if s.len() >= 3 && s.subrange(s.len() - 3, s.len() as int) == dot_rs() {
        trim_rs(s.subrange(0, s.len() - 3))
    } else {
        s
    }
}

/// `s` with every dash made an underscore.
pub open spec fn dashes_to_underscores(s: Seq<char>) -> Seq<char> {
    s.map_values(|c: char| if c == '-' { '_' } else { c })
}

/// The crate name of a source file named `file_name`.
pub open spec fn crate_name_of(file_name: Seq<char>) -> Seq<char> {
    let stem = trim_rs(file_name);
    dashes_to_underscores(if stem.len() == 0 { seq!['c', 'r', 'a', 't', 'e'] } else { stem })
}

fn ends_with_rs(s: &str) -> (r: bool)
    ensures
        r == (s@.len() >= 3 && s@.subrange(s@.len() - 3, s@.len() as int) == dot_rs()),
{
    let n = s.unicode_len();
    if n < 3 {
        return false;
    }
    let a = s.get_char(n - 3);
    let b = s.get_char(n - 2);
    let c = s.get_char(n - 1);
    let r = a == '.' && b == 'r' && c == 's';
    assert(r == (s@.subrange(n - 3, n as int) =~= dot_rs()));
    r
}

/// `s` without every trailing `.rs`.
pub fn trim_end_rs(s: &str) -> (r: &str)
    ensures
        r@ == trim_rs(s@),
{
    let mut cur = s;
    while ends_with_rs(cur)
        invariant
            trim_rs(cur@) == trim_rs(s@),
        decreases cur@.len(),
    {
        let n = cur.unicode_len();
        cur = cur.substring_char(0, n - 3);
    }
    cur
}

/// `s` with every dash made an underscore.
pub fn replace_dashes(s: &str) -> (r: String)
    ensures
        r@ == dashes_to_underscores(s@),
{
    let n = s.unicode_len();
    let mut r = String::new();
    let mut i: usize = 0;
    while i < n
        invariant
            n == s@.len(),
            i <= n,
            r@ == dashes_to_underscores(s@.subrange(0, i as int)),
        decreases n - i,
    {
        let c = s.get_char(i);
        if c == '-' {
            proof {
                reveal_strlit("_");
            }
            r.append("_");
        } else {
            r.append(s.substring_char(i, i + 1));
        }
        assert(s@.subrange(0, i + 1) =~= s@.subrange(0, i as int).push(c));
        assert(dashes_to_underscores(s@.subrange(0, i + 1)) =~= dashes_to_underscores(
            s@.subrange(0, i as int),
        ).push(if c == '-' { '_' } else { c }));
        i = i + 1;
    }
    assert(s@.subrange(0, n as int) =~= s@);
    r
}

fn is_main_rs(s: &str) -> (r: bool)
    ensures
        r == (s@ == seq!['m', 'a', 'i', 'n', '.', 'r', 's']),
{
    let n = s.unicode_len();
    if n != 7 {
        return false;
    }
    let r = s.get_char(0) == 'm' && s.get_char(1) == 'a' && s.get_char(2) == 'i' && s.get_char(3)
        == 'n' && s.get_char(4) == '.' && s.get_char(5) == 'r' && s.get_char(6) == 's';
    assert(r == (s@ =~= seq!['m', 'a', 'i', 'n', '.', 'r', 's']));
    r
}

/// Where a target is read from: a single source file gives its own
/// names (the crate name from the file name without its `.rs`, dashes made
/// underscores, `crate` if nothing is left; a binary if the file is
/// `main.rs`; edition 2021); a directory is left to its manifest's
/// metadata; a missing path fails. A file without a name counts as
/// `lib.rs`.
pub fn load_project_info(path: &str, kind: PathKind, file_name: Option<&str>) -> (r: ProjectLoad)
    ensures
        kind == PathKind::Dir ==> r is NeedsMetadata,
        kind == PathKind::Missing ==> (r matches ProjectLoad::Failed(msg) && msg@
            == "path does not exist: "@ + path@),
        kind == PathKind::File ==> {
            let name = match file_name {
                Some(f) => f@,
                None => seq!['l', 'i', 'b', '.', 'r', 's'],
            };
            r matches ProjectLoad::Loaded(info) && {
                &&& info.crate_name@ == crate_name_of(name)
                &&& info.package_name@ == crate_name_of(name)
                &&& info.edition@ == seq!['2', '0', '2', '1']
                &&& info.crate_type@ == (if name == seq!['m', 'a', 'i', 'n', '.', 'r', 's'] {
                    seq!['b', 'i', 'n']
                } else {
                    seq!['l', 'i', 'b']
                })
                &&& info.source_path@ == path@
            }
        },
{
    match kind {
        PathKind::File => {
            let old_file_name = file_name;
            let file_name = match file_name {
                Some(f) => f,
                None => "lib.rs",
            };
            proof {
                reveal_strlit("lib.rs");
                reveal_strlit("crate");
                reveal_strlit("2021");
                reveal_strlit("bin");
                reveal_strlit("lib");
            }
            let stem = trim_end_rs(file_name);
            let base = if stem.unicode_len() == 0 {
                "crate"
            } else {
                stem
            };
            let crate_name = replace_dashes(base);
            let crate_type = if is_main_rs(file_name) {
                "bin"
            } else {
                "lib"
            };
            let ghost name = file_name@;
            assert(stem@ == trim_rs(name));
            assert(base@ == (if trim_rs(name).len() == 0 { seq!['c', 'r', 'a', 't', 'e'] } else { trim_rs(name) }));
            assert(crate_name@ == crate_name_of(name));
            let info = ProjectInfo {
                package_name: crate_name.clone(),
                crate_name,
                edition: String::from_str("2021"),
                crate_type: String::from_str(crate_type),
                source_path: String::from_str(path),
            };
            assert(info.edition@ == seq!['2', '0', '2', '1']);
            assert(info.crate_type@ == (if name == seq!['m', 'a', 'i', 'n', '.', 'r', 's'] {
                    seq!['b', 'i', 'n']
                } else {
                    seq!['l', 'i', 'b']
                }));
            assert(name == (match old_file_name {
                Some(f) => f@,
                None => seq!['l', 'i', 'b', '.', 'r', 's'],
            }));
            ProjectLoad::Loaded(info)
        },
        PathKind::Dir => ProjectLoad::NeedsMetadata,
        PathKind::Missing => {
            let mut msg = String::from_str("path does not exist: ");
            msg.append(path);
            ProjectLoad::Failed(msg)
        },
    }
}

/// Arguments `9 + 2 i` and `10 + 2 i` name outside crate `i`.
pub open spec fn extern_args_at(args: Seq<String>, externs: Seq<(String, String)>, i: int) -> bool {
    &&& args[9 + 2 * i]@ == "--extern"@
    &&& args[10 + 2 * i]@ == externs[i].0@ + "="@ + externs[i].1@
}

/// The arguments for the Rust compiler: the program name, crate type,
/// edition and crate name of the target, lints capped at `allow`, each
/// outside crate as `--extern name=path`, and the entry file last.
pub fn build_rustc_args(info: &ProjectInfo, externs: &[(String, String)]) -> (r: Vec<String>)
    ensures
        r@.len() == 10 + 2 * externs@.len(),
        r@[0]@ == "rust2genshin"@,
        r@[1]@ == "--crate-type"@,
        r@[2]@ == info.crate_type@,
        r@[3]@ == "--edition"@,
        r@[4]@ == info.edition@,
        r@[5]@ == "--crate-name"@,
        r@[6]@ == info.crate_name@,
        r@[7]@ == "--cap-lints"@,
        r@[8]@ == "allow"@,
        forall|i: int| 0 <= i < externs@.len() ==> #[trigger] extern_args_at(r@, externs@, i),
        r@[r@.len() - 1]@ == info.source_path@,
{
    let mut args: Vec<String> = Vec::new();
    args.push(String::from_str("rust2genshin"));
    args.push(String::from_str("--crate-type"));
    args.push(info.crate_type.clone());
    args.push(String::from_str("--edition"));
    args.push(info.edition.clone());
    args.push(String::from_str("--crate-name"));
    args.push(info.crate_name.clone());
    args.push(String::from_str("--cap-lints"));
    args.push(String::from_str("allow"));
    let mut i: usize = 0;
    while i < externs.len()
        invariant
            i <= externs@.len(),
            args@.len() == 9 + 2 * i,
            args@[0]@ == "rust2genshin"@,
            args@[1]@ == "--crate-type"@,
            args@[2]@ == info.crate_type@,
            args@[3]@ == "--edition"@,
            args@[4]@ == info.edition@,
            args@[5]@ == "--crate-name"@,
            args@[6]@ == info.crate_name@,
            args@[7]@ == "--cap-lints"@,
            args@[8]@ == "allow"@,
            forall|j: int| 0 <= j < i ==> #[trigger] extern_args_at(args@, externs@, j),
        decreases externs@.len() - i,
    {
        let ghost before = args@;
        args.push(String::from_str("--extern"));
        let mut pair = externs[i].0.clone();
        pair.append("=");
        pair.append(externs[i].1.as_str());
        args.push(pair);
        assert forall|j: int| 0 <= j < i + 1 implies #[trigger] extern_args_at(args@, externs@, j) by {
            if j < i {
                assert(extern_args_at(before, externs@, j));
                assert(args@[9 + 2 * j] == before[9 + 2 * j]);
                assert(args@[10 + 2 * j] == before[10 + 2 * j]);
            }
        }
        i = i + 1;
    }
    let ghost before = args@;
    args.push(info.source_path.clone());
    assert forall|j: int| 0 <= j < externs@.len() implies #[trigger] extern_args_at(args@, externs@, j) by {
        assert(extern_args_at(before, externs@, j));
        assert(args@[9 + 2 * j] == before[9 + 2 * j]);
        assert(args@[10 + 2 * j] == before[10 + 2 * j]);
    }
    args
}

} // verus!
