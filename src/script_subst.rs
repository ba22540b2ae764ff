//! Composition of the final maintainer scripts from user-written scripts and
//! accumulated fragments.
use vstd::prelude::*;
use vstd::utf8::{encode_utf8, valid_utf8};

use crate::autoscript::{fragment_file_name, fragment_name, fragments_of, ScriptFragments};
use crate::error::DhError;
use crate::paths::{candidate_paths, first_present, pkgfile, FileSet};
use crate::text::{
    bytes_equal, contains_seq, is_utf8, lemma_encode_concat, lemma_replace_all_absent,
    lemma_replace_all_changes, push_all, replace_all, replace_bytes,
};

verus! {

/// What composing one maintainer script did.
#[derive(Debug)]
pub enum SubstAction {
    /// The user's script at this path received the fragments.
    Augmented(String),
    /// A script was made from the fragments alone.
    Generated,
    /// There was neither a user script nor fragments: no script.
    Unchanged,
}

/// The bytes of the marker token that user scripts carry.
pub open spec fn marker() -> Seq<u8> {
    encode_utf8("#DEBHELPER#"@)
}

/// The shebang line and the fail-fast line of a generated script.
pub open spec fn script_header() -> Seq<u8> {
    encode_utf8("#!/bin/sh\nset -e\n"@)
}

/// The user's script for `package` and `script` among `files`, if any.
pub open spec fn user_script(
    files: Map<Seq<char>, Seq<char>>,
    dir: Seq<char>,
    package: Seq<char>,
    script: Seq<char>,
    unit_name: Option<Seq<char>>,
) -> Option<Seq<char>> {
    first_present(candidate_paths(dir, package, package, script, unit_name), files.dom())
}

/// Whether the fragments of `package` and `script` exist and are not UTF-8.
pub open spec fn fragments_bad(table: Map<Seq<char>, Seq<u8>>, package: Seq<char>, script: Seq<char>) -> bool {
    let key = fragment_name(package, script);
    table.contains_key(key) && !valid_utf8(table[key])
}

/// The table after composing `script`, or `None` where composing fails.
/// A user script gets the fragments in place of its markers and must have
/// had one; without a user script, fragments become a script of their own
/// under the shebang and fail-fast lines.
pub open spec fn subst_table(
    table: Map<Seq<char>, Seq<u8>>,
    files: Map<Seq<char>, Seq<char>>,
    dir: Seq<char>,
    package: Seq<char>,
    script: Seq<char>,
    unit_name: Option<Seq<char>>,
) -> Option<Map<Seq<char>, Seq<u8>>> {
    let key = fragment_name(package, script);
    if fragments_bad(table, package, script) {
        None
    } else {
        match user_script(files, dir, package, script, unit_name) {
            Some(path) => {
                let user = encode_utf8(files[path]);
                let merged = replace_all(user, marker(), fragments_of(table, package, script));
                if merged == user {
                    None
                } else {
                    Some(table.insert(script, merged))
                }
            },
            None => {
                if table.contains_key(key) {
                    Some(table.insert(script, script_header() + table[key]))
                } else {
                    Some(table)
                }
            },
        }
    }
}

/// What a failed composition of `script` reports.
pub open spec fn subst_error(
    table: Map<Seq<char>, Seq<u8>>,
    files: Map<Seq<char>, Seq<char>>,
    dir: Seq<char>,
    package: Seq<char>,
    script: Seq<char>,
    unit_name: Option<Seq<char>>,
    e: DhError,
) -> bool {
    if fragments_bad(table, package, script) {
        e is InvalidUtf8
    } else {
        match (user_script(files, dir, package, script, unit_name), e) {
            (Some(path), DhError::ReplaceFailed(p)) => p@ == path,
            _ => false,
        }
    }
}

/// Whether `a` reports what composing `script` did.
pub open spec fn action_matches(
    a: SubstAction,
    table: Map<Seq<char>, Seq<u8>>,
    files: Map<Seq<char>, Seq<char>>,
    dir: Seq<char>,
    package: Seq<char>,
    script: Seq<char>,
    unit_name: Option<Seq<char>>,
) -> bool {
    match (user_script(files, dir, package, script, unit_name), a) {
        (Some(path), SubstAction::Augmented(p)) => p@ == path,
        (Some(_), _) => false,
        (None, SubstAction::Generated) => table.contains_key(fragment_name(package, script)),
        (None, SubstAction::Unchanged) => !table.contains_key(fragment_name(package, script)),
        (None, _) => false,
    }
}

/// Composes the maintainer script `script` of `package` and stores it in
/// `scripts` under the name `script`. The user's script is the one that
/// [`pkgfile`] finds among `files` in `user_scripts_dir`. On error `scripts`
/// is left as it was.
pub fn debhelper_script_subst(
    user_scripts_dir: &str,
    scripts: &mut ScriptFragments,
    package: &str,
    script: &str,
    unit_name: Option<&str>,
    files: &FileSet,
) -> (r: Result<SubstAction, DhError>)
    requires
        old(scripts).wf(),
        files.wf(),
    ensures
        final(scripts).wf(),
        match r {
            Ok(a) => subst_table(
                old(scripts)@,
                files@,
                user_scripts_dir@,
                package@,
                script@,
                crate::paths::opt_view(unit_name),
            ) == Some(final(scripts)@) && action_matches(
                a,
                old(scripts)@,
                files@,
                user_scripts_dir@,
                package@,
                script@,
                crate::paths::opt_view(unit_name),
            ),
            Err(e) => subst_table(
                old(scripts)@,
                files@,
                user_scripts_dir@,
                package@,
                script@,
                crate::paths::opt_view(unit_name),
            ) is None && final(scripts)@ == old(scripts)@ && subst_error(
                old(scripts)@,
                files@,
                user_scripts_dir@,
                package@,
                script@,
                crate::paths::opt_view(unit_name),
                e,
            ),
        },
{
    let user_file = pkgfile(user_scripts_dir, package, package, script, unit_name, files);
    let generated_name = fragment_file_name(package, script);
    let mut generated: Vec<u8> = Vec::new();
    let found = match scripts.get(generated_name.as_str()) {
        Some(t) => {
            if !is_utf8(t) {
                return Err(DhError::InvalidUtf8);
            }
            push_all(&mut generated, t);
            true
        },
        None => false,
    };
    assert(generated@ == fragments_of(old(scripts)@, package@, script@));
    match user_file {
        Some(path) => {
            proof {
                crate::paths::lemma_first_present_found(
                    candidate_paths(
                        user_scripts_dir@,
                        package@,
                        package@,
                        script@,
                        crate::paths::opt_view(unit_name),
                    ),
                    files@.dom(),
                );
            }
            let user_text = match files.get(path.as_str()) {
                Some(t) => t.as_str().as_bytes_vec(),
                None => vstd::pervasive::unreached(),
            };
            let token = "#DEBHELPER#".as_bytes_vec();
            proof {
                reveal_strlit("#DEBHELPER#");
            }
            assert(token@.len() > 0);
            let new_text = replace_bytes(&user_text, &token, &generated);
            if bytes_equal(&new_text, &user_text) {
                return Err(DhError::ReplaceFailed(path));
            }
            scripts.insert(script.to_owned(), new_text);
            Ok(SubstAction::Augmented(path))
        },
        None => {
            if found {
                let mut text = "#!/bin/sh\nset -e\n".as_bytes_vec();
                push_all(&mut text, &generated);
                scripts.insert(script.to_owned(), text);
                Ok(SubstAction::Generated)
            } else {
                Ok(SubstAction::Unchanged)
            }
        },
    }
}

/// The maintainer scripts, in the order they are composed.
pub open spec fn maintainer_script_names() -> Seq<Seq<char>> {
    seq!["postinst"@, "preinst"@, "prerm"@, "postrm"@]
}

/// The table after composing each of `names` in turn, or `None` where one
/// of them fails.
pub open spec fn subst_all(
    table: Map<Seq<char>, Seq<u8>>,
    files: Map<Seq<char>, Seq<char>>,
    dir: Seq<char>,
    package: Seq<char>,
    unit_name: Option<Seq<char>>,
    names: Seq<Seq<char>>,
) -> Option<Map<Seq<char>, Seq<u8>>>
    decreases names.len(),
{
    if names.len() == 0 {
        Some(table)
    } else {
        match subst_table(table, files, dir, package, names[0], unit_name) {
            Some(t) => subst_all(t, files, dir, package, unit_name, names.drop_first()),
            None => None,
        }
    }
}

/// Whether composing `names` in turn stops at a failing one with error `e`,
/// leaving `last` as the table after the ones before it.
pub open spec fn subst_all_fails(
    table: Map<Seq<char>, Seq<u8>>,
    files: Map<Seq<char>, Seq<char>>,
    dir: Seq<char>,
    package: Seq<char>,
    unit_name: Option<Seq<char>>,
    names: Seq<Seq<char>>,
    last: Map<Seq<char>, Seq<u8>>,
    e: DhError,
) -> bool
    decreases names.len(),
{
    if names.len() == 0 {
        false
    } else {
        match subst_table(table, files, dir, package, names[0], unit_name) {
            Some(t) => subst_all_fails(t, files, dir, package, unit_name, names.drop_first(), last, e),
            None => last == table && subst_error(table, files, dir, package, names[0], unit_name, e),
        }
    }
}

/// Whether `actions` report, one per name, what composing `names` in turn did.
pub open spec fn actions_match(
    table: Map<Seq<char>, Seq<u8>>,
    files: Map<Seq<char>, Seq<char>>,
    dir: Seq<char>,
    package: Seq<char>,
    unit_name: Option<Seq<char>>,
    names: Seq<Seq<char>>,
    actions: Seq<SubstAction>,
) -> bool
    decreases names.len(),
{
    if names.len() == 0 {
        actions.len() == 0
    } else {
        match subst_table(table, files, dir, package, names[0], unit_name) {
            Some(t) => actions.len() > 0 && action_matches(
                actions[0],
                table,
                files,
                dir,
                package,
                names[0],
                unit_name,
            ) && actions_match(t, files, dir, package, unit_name, names.drop_first(), actions.drop_first()),
            None => false,
        }
    }
}

/// Composes the four maintainer scripts of `package` (`postinst`,
/// `preinst`, `prerm`, `postrm`, in that order) with
/// [`debhelper_script_subst`], stopping at the first error. Returns what was
/// done for each.
pub fn apply(
    user_scripts_dir: &str,
    scripts: &mut ScriptFragments,
    package: &str,
    unit_name: Option<&str>,
    files: &FileSet,
) -> (r: Result<Vec<SubstAction>, DhError>)
    requires
        old(scripts).wf(),
        files.wf(),
    ensures
        final(scripts).wf(),
        match r {
            Ok(actions) => subst_all(
                old(scripts)@,
                files@,
                user_scripts_dir@,
                package@,
                crate::paths::opt_view(unit_name),
                maintainer_script_names(),
            ) == Some(final(scripts)@) && actions_match(
                old(scripts)@,
                files@,
                user_scripts_dir@,
                package@,
                crate::paths::opt_view(unit_name),
                maintainer_script_names(),
                actions@,
            ),
            Err(e) => subst_all(
                old(scripts)@,
                files@,
                user_scripts_dir@,
                package@,
                crate::paths::opt_view(unit_name),
                maintainer_script_names(),
            ) is None && subst_all_fails(
                old(scripts)@,
                files@,
                user_scripts_dir@,
                package@,
                crate::paths::opt_view(unit_name),
                maintainer_script_names(),
                final(scripts)@,
                e,
            ),
        },
{
    proof {
        reveal_with_fuel(subst_all, 5);
        reveal_with_fuel(subst_all_fails, 5);
        reveal_with_fuel(actions_match, 5);
    }
    let ghost names = maintainer_script_names();
    assert(names.drop_first() =~= seq!["preinst"@, "prerm"@, "postrm"@]);
    assert(names.drop_first().drop_first() =~= seq!["prerm"@, "postrm"@]);
    assert(names.drop_first().drop_first().drop_first() =~= seq!["postrm"@]);
    assert(names.drop_first().drop_first().drop_first().drop_first() =~= Seq::<Seq<char>>::empty());
    let mut actions: Vec<SubstAction> = Vec::new();
    let a0 = match debhelper_script_subst(user_scripts_dir, scripts, package, "postinst", unit_name, files) {
        Ok(a) => a,
        Err(e) => {
            return Err(e);
        },
    };
    let a1 = match debhelper_script_subst(user_scripts_dir, scripts, package, "preinst", unit_name, files) {
        Ok(a) => a,
        Err(e) => {
            return Err(e);
        },
    };
    let a2 = match debhelper_script_subst(user_scripts_dir, scripts, package, "prerm", unit_name, files) {
        Ok(a) => a,
        Err(e) => {
            return Err(e);
        },
    };
    let a3 = match debhelper_script_subst(user_scripts_dir, scripts, package, "postrm", unit_name, files) {
        Ok(a) => a,
        Err(e) => {
            return Err(e);
        },
    };
    actions.push(a0);
    actions.push(a1);
    actions.push(a2);
    actions.push(a3);
    assert(actions@.drop_first() =~= seq![a1, a2, a3]);
    assert(actions@.drop_first().drop_first() =~= seq![a2, a3]);
    assert(actions@.drop_first().drop_first().drop_first() =~= seq![a3]);
    assert(actions@.drop_first().drop_first().drop_first().drop_first() =~= Seq::<SubstAction>::empty());
    Ok(actions)
}

/// With neither a user script nor fragments, composing adds no script.
pub proof fn lemma_nothing_to_compose(
    table: Map<Seq<char>, Seq<u8>>,
    files: Map<Seq<char>, Seq<char>>,
    dir: Seq<char>,
    package: Seq<char>,
    script: Seq<char>,
    unit_name: Option<Seq<char>>,
)
    requires
        user_script(files, dir, package, script, unit_name) is None,
        !table.contains_key(fragment_name(package, script)),
    ensures
        subst_table(table, files, dir, package, script, unit_name) == Some(table),
{
}

/// With fragments and no user script, the script is the shebang line, the
/// fail-fast line, and the fragments unchanged.
pub proof fn lemma_generated_script(
    table: Map<Seq<char>, Seq<u8>>,
    files: Map<Seq<char>, Seq<char>>,
    dir: Seq<char>,
    package: Seq<char>,
    script: Seq<char>,
    unit_name: Option<Seq<char>>,
)
    requires
        user_script(files, dir, package, script, unit_name) is None,
        table.contains_key(fragment_name(package, script)),
        valid_utf8(table[fragment_name(package, script)]),
    ensures
        subst_table(table, files, dir, package, script, unit_name) == Some(
            table.insert(
                script,
                encode_utf8("#!/bin/sh\n"@) + encode_utf8("set -e\n"@) + table[fragment_name(
                    package,
                    script,
                )],
            ),
        ),
{
    reveal_strlit("#!/bin/sh\nset -e\n");
    reveal_strlit("#!/bin/sh\n");
    reveal_strlit("set -e\n");
    assert("#!/bin/sh\nset -e\n"@ =~= "#!/bin/sh\n"@ + "set -e\n"@);
    lemma_encode_concat("#!/bin/sh\n"@, "set -e\n"@);
}

/// A user script that holds the marker gets the fragments in place of each
/// marker, the rest of its text unchanged; this needs fragments other than
/// the marker itself, which would leave the script as it was.
pub proof fn lemma_marker_replaced(
    table: Map<Seq<char>, Seq<u8>>,
    files: Map<Seq<char>, Seq<char>>,
    dir: Seq<char>,
    package: Seq<char>,
    script: Seq<char>,
    unit_name: Option<Seq<char>>,
    path: Seq<char>,
)
    requires
        user_script(files, dir, package, script, unit_name) == Some(path),
        !fragments_bad(table, package, script),
        contains_seq(encode_utf8(files[path]), marker()),
        fragments_of(table, package, script) != marker(),
    ensures
        subst_table(table, files, dir, package, script, unit_name) == Some(
            table.insert(
                script,
                replace_all(encode_utf8(files[path]), marker(), fragments_of(table, package, script)),
            ),
        ),
{
    reveal_strlit("#DEBHELPER#");
    assert(marker().len() > 0);
    lemma_replace_all_changes(encode_utf8(files[path]), marker(), fragments_of(table, package, script));
}

/// A user script without the marker is an error, even with no fragments.
pub proof fn lemma_marker_missing(
    table: Map<Seq<char>, Seq<u8>>,
    files: Map<Seq<char>, Seq<char>>,
    dir: Seq<char>,
    package: Seq<char>,
    script: Seq<char>,
    unit_name: Option<Seq<char>>,
    path: Seq<char>,
)
    requires
        user_script(files, dir, package, script, unit_name) == Some(path),
        !contains_seq(encode_utf8(files[path]), marker()),
    ensures
        subst_table(table, files, dir, package, script, unit_name) is None,
{
    lemma_replace_all_absent(encode_utf8(files[path]), marker(), fragments_of(table, package, script));
}

} // verus!
