use dh_lib::paths::{pkgfile, pkgfile_candidates, FileSet};

fn files(paths: &[&str]) -> FileSet {
    let mut fs = FileSet::new();
    for p in paths {
        fs.insert(p.to_string(), String::new());
    }
    fs
}

fn all_six() -> FileSet {
    files(&[
        "/parent/dir/postinst",
        "/parent/dir/myunit.postinst",
        "/parent/dir/mypkg.postinst",
        "/parent/dir/mypkg.myunit.postinst",
        "/parent/dir/nested/mypkg.myunit.postinst",
        "/parent/mypkg.myunit.postinst",
    ])
}

#[test]
fn pkgfile_finds_most_specific_match_with_pkg_unit_file() {
    let fs = all_six();
    let r = pkgfile("/parent/dir/", "mypkg", "mypkg", "postinst", Some("myunit"), &fs);
    assert_eq!(Some("/parent/dir/mypkg.myunit.postinst".to_string()), r);

    let r = pkgfile("/parent/dir/", "mypkg", "mypkg", "postinst", None, &fs);
    assert_eq!(Some("/parent/dir/mypkg.postinst".to_string()), r);
}

#[test]
fn pkgfile_finds_most_specific_match_without_unit_file() {
    let fs = files(&["/parent/dir/postinst", "/parent/dir/mypkg.postinst"]);
    let r = pkgfile("/parent/dir/", "mypkg", "mypkg", "postinst", Some("myunit"), &fs);
    assert_eq!(Some("/parent/dir/mypkg.postinst".to_string()), r);

    let r = pkgfile("/parent/dir/", "mypkg", "mypkg", "postinst", None, &fs);
    assert_eq!(Some("/parent/dir/mypkg.postinst".to_string()), r);
}

#[test]
fn pkgfile_finds_most_specific_match_without_pkg_file() {
    let fs = files(&["/parent/dir/postinst", "/parent/dir/myunit.postinst"]);
    let r = pkgfile("/parent/dir/", "mypkg", "mypkg", "postinst", Some("myunit"), &fs);
    assert_eq!(Some("/parent/dir/myunit.postinst".to_string()), r);

    let r = pkgfile("/parent/dir/", "mypkg", "mypkg", "postinst", None, &fs);
    assert_eq!(Some("/parent/dir/postinst".to_string()), r);
}

#[test]
fn pkgfile_finds_a_fallback_match() {
    let fs = all_six();
    let r = pkgfile("/parent/dir/", "mypkg", "mypkg", "postinst", Some("wrongunit"), &fs);
    assert_eq!(Some("/parent/dir/mypkg.postinst".to_string()), r);

    let r = pkgfile("/parent/dir/", "wrongpkg", "wrongpkg", "postinst", None, &fs);
    assert_eq!(Some("/parent/dir/postinst".to_string()), r);
}

#[test]
fn pkgfile_fails_to_find_a_match() {
    let fs = all_six();
    let r = pkgfile("/parent/dir/", "mypkg", "mypkg", "wrongfile", None, &fs);
    assert_eq!(None, r);

    let r = pkgfile("/wrong/dir/", "mypkg", "mypkg", "postinst", None, &fs);
    assert_eq!(None, r);
}

#[test]
fn pkgfile_over_four_files_prefers_package_and_unit() {
    let fs = files(&[
        "dir/postinst",
        "dir/myunit.postinst",
        "dir/mypkg.postinst",
        "dir/mypkg.myunit.postinst",
    ]);
    let r = pkgfile("dir", "mypkg", "mypkg", "postinst", Some("myunit"), &fs);
    assert_eq!(Some("dir/mypkg.myunit.postinst".to_string()), r);
    let r = pkgfile("dir", "mypkg", "mypkg", "postinst", Some("wrongunit"), &fs);
    assert_eq!(Some("dir/mypkg.postinst".to_string()), r);
    let r = pkgfile("dir", "mypkg", "mypkg", "wrongfile", None, &fs);
    assert_eq!(None, r);
}

#[test]
fn candidates_for_main_package_with_unit() {
    let c = pkgfile_candidates("/d", "pkg", "pkg", "service", Some("u"));
    assert_eq!(
        vec!["/d/pkg.u.service", "/d/u.service", "/d/pkg.service", "/d/service"],
        c
    );
}

#[test]
fn candidates_for_other_package_skip_main_only_paths() {
    let c = pkgfile_candidates("/d/", "main", "pkg", "service", Some("u"));
    assert_eq!(vec!["/d/pkg.u.service", "/d/pkg.service"], c);
    let c = pkgfile_candidates("", "main", "pkg", "postrm", None);
    assert_eq!(vec!["pkg.postrm"], c);
}

#[test]
fn candidates_without_unit_for_main_package() {
    let c = pkgfile_candidates("", "pkg", "pkg", "postrm", None);
    assert_eq!(vec!["pkg.postrm", "postrm"], c);
}

#[test]
fn pkgfile_skips_main_only_paths_for_other_packages() {
    let fs = files(&["/d/postinst", "/d/u.postinst"]);
    assert_eq!(None, pkgfile("/d", "main", "other", "postinst", Some("u"), &fs));
    assert_eq!(
        Some("/d/u.postinst".to_string()),
        pkgfile("/d", "main", "main", "postinst", Some("u"), &fs)
    );
}
