//! Lookup of the most specific override file for a package, file name and
//! optional unit name.
use vstd::prelude::*;

use crate::file_map::FileMap;

verus! {

/// The files that a lookup may find: path to text.
pub type FileSet = FileMap<String>;

/// The view of an optional string.
pub open spec fn opt_view(o: Option<&str>) -> Option<Seq<char>> {
    match o {
        Some(s) => Some(s@),
        None => None,
    }
}

/// `dir` joined with `name` as a filesystem path: an absolute `name` stands
/// alone; otherwise a separator is put between the two unless `dir` is empty
/// or already ends in one.
pub open spec fn join_path(dir: Seq<char>, name: Seq<char>) -> Seq<char> {
    if name.len() > 0 && name[0] == '/' {
        name
    } else if dir.len() == 0 || dir.last() == '/' {
        dir + name
    } else {
        dir + seq!['/'] + name
    }
}

/// `a.b`
pub open spec fn dotted(a: Seq<char>, b: Seq<char>) -> Seq<char> {
    a + seq!['.'] + b
}

/// The paths to try, most specific first: package and unit; unit alone (for
/// the main package only); package alone; the bare file name (for the main
/// package only).
pub open spec fn candidate_paths(
    dir: Seq<char>,
    main_package: Seq<char>,
    package: Seq<char>,
    filename: Seq<char>,
    unit_name: Option<Seq<char>>,
) -> Seq<Seq<char>> {
    let is_main = main_package == package;
    let unit_part = match unit_name {
        Some(u) => {
            let named = dotted(u, filename);
            if is_main {
                seq![join_path(dir, dotted(package, named)), join_path(dir, named)]
            } else {
                seq![join_path(dir, dotted(package, named))]
            }
        },
        None => Seq::empty(),
    };
    let plain_part = if is_main {
        seq![join_path(dir, dotted(package, filename)), join_path(dir, filename)]
    } else {
        seq![join_path(dir, dotted(package, filename))]
    };
    unit_part + plain_part
}

/// The first of `paths` that `present` holds, if any.
pub open spec fn first_present(paths: Seq<Seq<char>>, present: Set<Seq<char>>) -> Option<
    Seq<char>,
>
    decreases paths.len(),
{
    if paths.len() == 0 {
        None
    } else if present.contains(paths[0]) {
        Some(paths[0])
    } else {
        first_present(paths.drop_first(), present)
    }
}

/// What [`first_present`] finds is one of `paths` and is present.
pub proof fn lemma_first_present_found(paths: Seq<Seq<char>>, present: Set<Seq<char>>)
    ensures
        first_present(paths, present) matches Some(p) ==> present.contains(p) && paths.contains(p),
    decreases paths.len(),
{
    if paths.len() > 0 && !present.contains(paths[0]) {
        lemma_first_present_found(paths.drop_first(), present);
        if let Some(p) = first_present(paths.drop_first(), present) {
            let i = choose|i: int| 0 <= i < paths.drop_first().len() && paths.drop_first()[i] == p;
            assert(paths[i + 1] == p);
        }
    } else if paths.len() > 0 {
        assert(paths[0] == paths[0]);
    }
}

/// The views of a vector of strings.
pub open spec fn strings_view(v: Seq<String>) -> Seq<Seq<char>> {
    v.map_values(|s: String| s@)
}

/// Joins `dir` and `name` as filesystem paths.
pub fn join(dir: &str, name: &str) -> (r: String)
    ensures
        r@ == join_path(dir@, name@),
{
    let name_len = name.unicode_len();
    if name_len > 0 && name.get_char(0) == '/' {
        return name.to_owned();
    }
    let dir_len = dir.unicode_len();
    let mut r = dir.to_owned();
    if dir_len > 0 && dir.get_char(dir_len - 1) != '/' {
        r.append("/");
        proof {
            reveal_strlit("/");
        }
        assert(r@ =~= dir@ + seq!['/']);
    }
    r.append(name);
    r
}

/// `a.b`
fn dot(a: &str, b: &str) -> (r: String)
    ensures
        r@ == dotted(a@, b@),
{
    let mut r = a.to_owned();
    r.append(".");
    r.append(b);
    proof {
        reveal_strlit(".");
    }
    assert(r@ =~= dotted(a@, b@));
    r
}

/// The paths that [`pkgfile`] tries, most specific first.
pub fn pkgfile_candidates(
    dir: &str,
    main_package: &str,
    package: &str,
    filename: &str,
    unit_name: Option<&str>,
) -> (r: Vec<String>)
    ensures
        strings_view(r@) == candidate_paths(dir@, main_package@, package@, filename@, opt_view(unit_name)),
{
    let main = main_package.to_owned();
    let pkg = package.to_owned();
    let is_main = main == pkg;
    let mut paths: Vec<String> = Vec::new();
    if let Some(unit) = unit_name {
        let named = dot(unit, filename);
        paths.push(join(dir, dot(package, named.as_str()).as_str()));
        if is_main {
            paths.push(join(dir, named.as_str()));
        }
    }
    paths.push(join(dir, dot(package, filename).as_str()));
    if is_main {
        paths.push(join(dir, filename));
    }
    assert(strings_view(paths@) =~= candidate_paths(
        dir@,
        main_package@,
        package@,
        filename@,
        opt_view(unit_name),
    ));
    paths
}

/// The first of `paths` that `files` holds.
fn first_existing(paths: &Vec<String>, files: &FileSet) -> (r: Option<String>)
    requires
        files.wf(),
    ensures
        opt_view_string(r) == first_present(strings_view(paths@), files@.dom()),
{
    let mut i: usize = 0;
    assert(strings_view(paths@).subrange(0, paths@.len() as int) =~= strings_view(paths@));
    while i < paths.len()
        invariant
            i <= paths@.len(),
            files.wf(),
            first_present(strings_view(paths@), files@.dom()) == first_present(
                strings_view(paths@).subrange(i as int, paths@.len() as int),
                files@.dom(),
            ),
        decreases paths@.len() - i,
    {
        let ghost rest = strings_view(paths@).subrange(i as int, paths@.len() as int);
        assert(rest[0] == paths@[i as int]@);
        assert(rest.drop_first() =~= strings_view(paths@).subrange(i + 1, paths@.len() as int));
        if files.contains_key(paths[i].as_str()) {
            return Some(paths[i].clone());
        }
        i = i + 1;
    }
    None
}

/// The view of an optional string.
pub open spec fn opt_view_string(o: Option<String>) -> Option<Seq<char>> {
    match o {
        Some(s) => Some(s@),
        None => None,
    }
}

/// Finds the file in `dir` that best matches `package`, `filename` and
/// `unit_name`: the first of [`pkgfile_candidates`] that `files` holds.
pub fn pkgfile(
    dir: &str,
    main_package: &str,
    package: &str,
    filename: &str,
    unit_name: Option<&str>,
    files: &FileSet,
) -> (r: Option<String>)
    requires
        files.wf(),
    ensures
        opt_view_string(r) == first_present(
            candidate_paths(dir@, main_package@, package@, filename@, opt_view(unit_name)),
            files@.dom(),
        ),
{
    let paths = pkgfile_candidates(dir, main_package, package, filename, unit_name);
    first_existing(&paths, files)
}

} // verus!
