use dh_lib::autoscript::ScriptFragments;
use dh_lib::error::DhError;
use dh_lib::paths::FileSet;
use dh_lib::script_subst::{apply, debhelper_script_subst, SubstAction};

fn valid_user_file() -> String {
    "some #DEBHELPER# content".to_owned()
}

fn invalid_user_file() -> String {
    "some content".to_owned()
}

fn text(scripts: &ScriptFragments, key: &str) -> String {
    String::from_utf8(scripts.get(key).unwrap().clone()).unwrap()
}

#[test]
fn debhelper_script_subst_with_no_matching_files() {
    let files = FileSet::new();
    let mut scripts = ScriptFragments::new();
    assert_eq!(0, scripts.len());
    let r = debhelper_script_subst("", &mut scripts, "mypkg", "myscript", None, &files).unwrap();
    assert!(matches!(r, SubstAction::Unchanged));
    assert_eq!(0, scripts.len());
}

#[test]
fn debhelper_script_subst_errs_if_user_file_lacks_token() {
    let mut files = FileSet::new();
    files.insert("myscript".to_string(), invalid_user_file());
    let mut scripts = ScriptFragments::new();
    let r = debhelper_script_subst("", &mut scripts, "mypkg", "myscript", None, &files);
    assert!(matches!(r, Err(DhError::ReplaceFailed(ref p)) if p == "myscript"));
    assert_eq!(0, scripts.len());
}

#[test]
fn debhelper_script_subst_with_user_file_only() {
    let mut files = FileSet::new();
    files.insert("myscript".to_string(), valid_user_file());
    let mut scripts = ScriptFragments::new();
    assert_eq!(0, scripts.len());
    let r = debhelper_script_subst("", &mut scripts, "mypkg", "myscript", None, &files).unwrap();
    assert!(matches!(r, SubstAction::Augmented(ref p) if p == "myscript"));
    assert_eq!("some  content", text(&scripts, "myscript"));
}

#[test]
fn debhelper_script_subst_with_generated_file_only() {
    let files = FileSet::new();
    let mut scripts = ScriptFragments::new();
    scripts.insert("mypkg.myscript.debhelper".to_owned(), Vec::from("some content".as_bytes()));
    assert_eq!(1, scripts.len());
    let r = debhelper_script_subst("", &mut scripts, "mypkg", "myscript", None, &files).unwrap();
    assert!(matches!(r, SubstAction::Generated));
    assert_eq!(2, scripts.len());
    assert!(scripts.contains_key("mypkg.myscript.debhelper"));
    assert!(scripts.contains_key("myscript"));
}

#[test]
fn generated_script_is_shebang_fail_fast_and_fragments() {
    let files = FileSet::new();
    let mut scripts = ScriptFragments::new();
    scripts.insert("mypkg.postinst.debhelper".to_owned(), b"echo one\necho two\n".to_vec());
    debhelper_script_subst("debian", &mut scripts, "mypkg", "postinst", None, &files).unwrap();
    assert_eq!("#!/bin/sh\nset -e\necho one\necho two\n", text(&scripts, "postinst"));
}

#[test]
fn user_script_gets_fragments_at_every_marker() {
    let mut files = FileSet::new();
    files.insert(
        "debian/mypkg.postinst".to_string(),
        "#!/bin/sh\n#DEBHELPER#\nexit 0 # #DEBHELPER#\n".to_string(),
    );
    let mut scripts = ScriptFragments::new();
    scripts.insert("mypkg.postinst.debhelper".to_owned(), b"echo hi\n".to_vec());
    let r = debhelper_script_subst("debian", &mut scripts, "mypkg", "postinst", None, &files).unwrap();
    assert!(matches!(r, SubstAction::Augmented(ref p) if p == "debian/mypkg.postinst"));
    assert_eq!("#!/bin/sh\necho hi\n\nexit 0 # echo hi\n\n", text(&scripts, "postinst"));
}

#[test]
fn user_script_without_marker_fails_even_with_fragments() {
    let mut files = FileSet::new();
    files.insert("debian/postinst".to_string(), "#!/bin/sh\nexit 0\n".to_string());
    let mut scripts = ScriptFragments::new();
    scripts.insert("mypkg.postinst.debhelper".to_owned(), b"echo hi\n".to_vec());
    let r = debhelper_script_subst("debian/", &mut scripts, "mypkg", "postinst", None, &files);
    assert!(matches!(r, Err(DhError::ReplaceFailed(ref p)) if p == "debian/postinst"));
    assert!(!scripts.contains_key("postinst"));
}

#[test]
fn fragments_that_are_not_utf8_fail_composition() {
    let files = FileSet::new();
    let mut scripts = ScriptFragments::new();
    scripts.insert("mypkg.prerm.debhelper".to_owned(), vec![0x80u8]);
    let r = debhelper_script_subst("", &mut scripts, "mypkg", "prerm", None, &files);
    assert!(matches!(r, Err(DhError::InvalidUtf8)));
    assert_eq!(1, scripts.len());
}

#[test]
fn apply_with_no_matching_files() {
    let files = FileSet::new();
    let mut scripts = ScriptFragments::new();
    let actions = apply("", &mut scripts, "mypkg", None, &files).unwrap();
    assert_eq!(4, actions.len());
    assert!(actions.iter().all(|a| matches!(a, SubstAction::Unchanged)));
    assert_eq!(0, scripts.len());
}

#[test]
fn apply_with_valid_user_files() {
    let names = ["postinst", "preinst", "prerm", "postrm"];
    let mut files = FileSet::new();
    for name in names.iter() {
        files.insert(name.to_string(), valid_user_file());
    }
    let mut scripts = ScriptFragments::new();
    let actions = apply("", &mut scripts, "mypkg", None, &files).unwrap();
    assert_eq!(names.len(), actions.len());
    for (name, action) in names.iter().zip(actions.iter()) {
        assert!(matches!(action, SubstAction::Augmented(p) if p == name));
        assert_eq!("some  content", text(&scripts, name));
    }
}

#[test]
fn apply_mixes_user_scripts_and_generated_ones() {
    let mut files = FileSet::new();
    files.insert("d/mypkg.u.prerm".to_string(), "A\n#DEBHELPER#\nB\n".to_string());
    let mut scripts = ScriptFragments::new();
    scripts.insert("mypkg.postinst.debhelper".to_owned(), b"start\n".to_vec());
    scripts.insert("mypkg.prerm.debhelper".to_owned(), b"stop\n".to_vec());
    let actions = apply("d", &mut scripts, "mypkg", Some("u"), &files).unwrap();
    assert!(matches!(actions[0], SubstAction::Generated));
    assert!(matches!(actions[1], SubstAction::Unchanged));
    assert!(matches!(actions[2], SubstAction::Augmented(ref p) if p == "d/mypkg.u.prerm"));
    assert!(matches!(actions[3], SubstAction::Unchanged));
    assert_eq!("#!/bin/sh\nset -e\nstart\n", text(&scripts, "postinst"));
    assert_eq!("A\nstop\n\nB\n", text(&scripts, "prerm"));
    assert!(!scripts.contains_key("preinst"));
    assert!(!scripts.contains_key("postrm"));
}

#[test]
fn apply_stops_at_the_first_failing_script() {
    let mut files = FileSet::new();
    files.insert("preinst".to_string(), invalid_user_file());
    files.insert("postrm".to_string(), valid_user_file());
    let mut scripts = ScriptFragments::new();
    scripts.insert("mypkg.postinst.debhelper".to_owned(), b"x\n".to_vec());
    let r = apply("", &mut scripts, "mypkg", None, &files);
    assert!(matches!(r, Err(DhError::ReplaceFailed(ref p)) if p == "preinst"));
    assert!(scripts.contains_key("postinst"));
    assert!(!scripts.contains_key("postrm"));
}
