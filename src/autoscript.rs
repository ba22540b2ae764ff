//! Accumulation of rendered fragment templates ("autoscripts") into the
//! per-package, per-script fragment table.
use vstd::prelude::*;
use vstd::utf8::{encode_utf8, valid_utf8};

use crate::error::DhError;
use crate::file_map::FileMap;
use crate::text::{
    is_utf8, lemma_encode_newlines, lemma_newline_chars_concat,
    lemma_newline_chars_none, lemma_newline_count_concat, newline_chars, newline_count, push_all,
    replace_all, replace_bytes,
};

verus! {

/// Named fragment templates: template name to template text.
pub type TemplateStore = FileMap<Vec<u8>>;

/// Accumulated fragments, keyed `<package>.<script>.debhelper`, and the
/// finished maintainer scripts, keyed by script name.
pub type ScriptFragments = FileMap<Vec<u8>>;

/// The table key of the fragments accumulated for `package` and `script`.
pub open spec fn fragment_name(package: Seq<char>, script: Seq<char>) -> Seq<char> {
    package + "."@ + script + ".debhelper"@
}

/// The fragments accumulated for `package` and `script`; empty if none.
pub open spec fn fragments_of(table: Map<Seq<char>, Seq<u8>>, package: Seq<char>, script: Seq<char>) -> Seq<u8> {
    let key = fragment_name(package, script);
    if table.contains_key(key) {
        table[key]
    } else {
        Seq::empty()
    }
}

/// `t`, ending in a newline: one is added where it is missing.
pub open spec fn with_final_newline(t: Seq<u8>) -> Seq<u8> {
    if t.len() > 0 && t.last() == 10u8 {
        t
    } else {
        t.push(10u8)
    }
}

/// The bytes of the placeholder token `#key#`.
pub open spec fn placeholder(key: Seq<char>) -> Seq<u8> {
    encode_utf8("#"@ + key + "#"@)
}

/// `t` with the placeholders of `reps` replaced, one pair after the other.
pub open spec fn render(t: Seq<u8>, reps: Seq<(Seq<char>, Seq<char>)>) -> Seq<u8>
    decreases reps.len(),
{
    if reps.len() == 0 {
        t
    } else {
        render(replace_all(t, placeholder(reps[0].0), encode_utf8(reps[0].1)), reps.drop_first())
    }
}

/// The views of placeholder / value pairs.
pub open spec fn pairs_view(v: Seq<(String, String)>) -> Seq<(Seq<char>, Seq<char>)> {
    v.map_values(|p: (String, String)| (p.0@, p.1@))
}

/// The comment line that opens each added block.
pub open spec fn banner_open(tool: Seq<char>) -> Seq<u8> {
    encode_utf8("# Automatically added by "@ + tool + "\n"@)
}

/// The comment line that closes each added block.
pub open spec fn banner_close() -> Seq<u8> {
    encode_utf8("# End automatically added section\n"@)
}

/// A rendered template between the two banner lines.
pub open spec fn wrapped(tool: Seq<char>, rendered: Seq<u8>) -> Seq<u8> {
    banner_open(tool) + rendered + banner_close()
}

/// Removal scripts, whose later fragments go first.
pub open spec fn is_removal_script(script: Seq<char>) -> bool {
    script == "postrm"@ || script == "prerm"@
}

/// `table` after adding `block` to the fragments of `package` and `script`:
/// before the earlier ones for a removal script, after them otherwise.
pub open spec fn accumulated(
    table: Map<Seq<char>, Seq<u8>>,
    package: Seq<char>,
    script: Seq<char>,
    block: Seq<u8>,
) -> Map<Seq<char>, Seq<u8>> {
    let key = fragment_name(package, script);
    let text = if !table.contains_key(key) {
        block
    } else if is_removal_script(script) {
        block + table[key]
    } else {
        table[key] + block
    };
    table.insert(key, text)
}

/// What a failed template lookup reports.
pub open spec fn template_error(store: Map<Seq<char>, Seq<u8>>, name: Seq<char>, e: DhError) -> bool {
    match e {
        DhError::UnknownAutoscript(n) => !store.contains_key(name) && n@ == name,
        DhError::InvalidUtf8 => store.contains_key(name) && !valid_utf8(store[name]),
        _ => false,
    }
}

/// Whether `store` holds a usable template named `name`.
pub open spec fn template_ok(store: Map<Seq<char>, Seq<u8>>, name: Seq<char>) -> bool {
    store.contains_key(name) && valid_utf8(store[name])
}

/// What a failed accumulation reports: the first failing check of: some
/// substitution is given; the fragments so far are UTF-8; the template exists
/// and is UTF-8.
pub open spec fn accumulate_error(
    table: Map<Seq<char>, Seq<u8>>,
    store: Map<Seq<char>, Seq<u8>>,
    key: Seq<char>,
    name: Seq<char>,
    n_pairs: nat,
    e: DhError,
) -> bool {
    if n_pairs == 0 {
        e is SedModeUnsupported
    } else if table.contains_key(key) && !valid_utf8(table[key]) {
        e is InvalidUtf8
    } else {
        template_error(store, name, e)
    }
}

/// `a.b.debhelper`
pub fn fragment_file_name(package: &str, script: &str) -> (r: String)
    ensures
        r@ == fragment_name(package@, script@),
{
    let mut r = package.to_owned();
    r.append(".");
    r.append(script);
    r.append(".debhelper");
    r
}

/// The template named `name`, ending in a newline.
pub fn get_embedded_autoscript(store: &TemplateStore, name: &str) -> (r: Result<Vec<u8>, DhError>)
    requires
        store.wf(),
    ensures
        r is Ok <==> template_ok(store@, name@),
        match r {
            Ok(t) => t@ == with_final_newline(store@[name@]),
            Err(e) => template_error(store@, name@, e),
        },
{
    let snippet = match store.get(name) {
        Some(t) => t,
        None => {
            return Err(DhError::UnknownAutoscript(name.to_owned()));
        },
    };
    if !is_utf8(snippet) {
        return Err(DhError::InvalidUtf8);
    }
    let mut text: Vec<u8> = Vec::new();
    push_all(&mut text, snippet);
    if text.len() == 0 || text[text.len() - 1] != 10u8 {
        text.push(10u8);
    }
    Ok(text)
}

/// The template named `name` with each `#key#` of `replacements` replaced by
/// its value, pair by pair in the order given. The placeholders are meant to
/// be distinct tokens: callers should not rely on that order.
pub fn autoscript_sed(store: &TemplateStore, name: &str, replacements: &Vec<(String, String)>) -> (r:
    Result<Vec<u8>, DhError>)
    requires
        store.wf(),
    ensures
        r is Ok <==> template_ok(store@, name@),
        match r {
            Ok(t) => t@ == render(with_final_newline(store@[name@]), pairs_view(replacements@)),
            Err(e) => template_error(store@, name@, e),
        },
{
    let mut text = match get_embedded_autoscript(store, name) {
        Ok(t) => t,
        Err(e) => {
            return Err(e);
        },
    };
    let ghost start = text@;
    let ghost pairs = pairs_view(replacements@);
    let mut i: usize = 0;
    assert(pairs.subrange(0, pairs.len() as int) =~= pairs);
    while i < replacements.len()
        invariant
            i <= replacements@.len(),
            pairs == pairs_view(replacements@),
            render(start, pairs) == render(text@, pairs.subrange(i as int, pairs.len() as int)),
        decreases replacements@.len() - i,
    {
        let mut token = "#".to_owned();
        token.append(replacements[i].0.as_str());
        token.append("#");
        let token_bytes = token.as_str().as_bytes_vec();
        let value_bytes = replacements[i].1.as_str().as_bytes_vec();
        proof {
            reveal_strlit("#");
            assert(token@.len() > 0);
            assert(encode_utf8(token@).len() > 0);
            let rest = pairs.subrange(i as int, pairs.len() as int);
            assert(rest.drop_first() =~= pairs.subrange(i + 1, pairs.len() as int));
            assert(rest[0] == pairs[i as int]);
        }
        text = replace_bytes(&text, &token_bytes, &value_bytes);
        i = i + 1;
    }
    assert(pairs.subrange(i as int, pairs.len() as int) =~= Seq::<(Seq<char>, Seq<char>)>::empty());
    Ok(text)
}

/// `rendered` between the two banner lines naming `tool_name`.
fn wrap_block(tool_name: &str, rendered: &Vec<u8>) -> (r: Vec<u8>)
    ensures
        r@ == wrapped(tool_name@, rendered@),
{
    let mut open = "# Automatically added by ".to_owned();
    open.append(tool_name);
    open.append("\n");
    let mut block = open.as_str().as_bytes_vec();
    push_all(&mut block, rendered);
    let close = "# End automatically added section\n".as_bytes_vec();
    push_all(&mut block, &close);
    block
}

/// Whether `script` is a removal script.
fn removal_script(script: &str) -> (r: bool)
    ensures
        r == is_removal_script(script@),
{
    let s = script.to_owned();
    s == "postrm".to_owned() || s == "prerm".to_owned()
}

/// Renders the template `snippet_filename` with `replacements`, wraps it in
/// banner lines naming `tool_name`, and adds the block to the fragments of
/// `package` and `script` in `scripts`: before the earlier blocks for `prerm`
/// and `postrm`, so that removal steps run in reverse order, and after them
/// otherwise. On error `scripts` is left as it was.
pub fn autoscript(
    scripts: &mut ScriptFragments,
    package: &str,
    script: &str,
    snippet_filename: &str,
    replacements: &Vec<(String, String)>,
    templates: &TemplateStore,
    tool_name: &str,
) -> (r: Result<(), DhError>)
    requires
        old(scripts).wf(),
        templates.wf(),
    ensures
        final(scripts).wf(),
        r is Ok <==> (replacements@.len() > 0 && !(old(scripts)@.contains_key(
            fragment_name(package@, script@),
        ) && !valid_utf8(old(scripts)@[fragment_name(package@, script@)])) && template_ok(
            templates@,
            snippet_filename@,
        )),
        match r {
            Ok(()) => final(scripts)@ == accumulated(
                old(scripts)@,
                package@,
                script@,
                wrapped(
                    tool_name@,
                    render(
                        with_final_newline(templates@[snippet_filename@]),
                        pairs_view(replacements@),
                    ),
                ),
            ),
            Err(e) => final(scripts)@ == old(scripts)@ && accumulate_error(
                old(scripts)@,
                templates@,
                fragment_name(package@, script@),
                snippet_filename@,
                replacements@.len(),
                e,
            ),
        },
{
    if replacements.len() == 0 {
        return Err(DhError::SedModeUnsupported);
    }
    let key = fragment_file_name(package, script);
    let existing: Option<Vec<u8>> = match scripts.get(key.as_str()) {
        Some(t) => {
            if !is_utf8(t) {
                return Err(DhError::InvalidUtf8);
            }
            let mut copy: Vec<u8> = Vec::new();
            push_all(&mut copy, t);
            Some(copy)
        },
        None => None,
    };
    let rendered = match autoscript_sed(templates, snippet_filename, replacements) {
        Ok(t) => t,
        Err(e) => {
            return Err(e);
        },
    };
    let block = wrap_block(tool_name, &rendered);
    let text = match existing {
        Some(earlier) => {
            if removal_script(script) {
                let mut t = block;
                push_all(&mut t, &earlier);
                t
            } else {
                let mut t = earlier;
                push_all(&mut t, &block);
                t
            }
        },
        None => block,
    };
    scripts.insert(key, text);
    Ok(())
}

/// Blocks accumulated for an install script (any but `prerm` and `postrm`),
/// starting from no fragments, stand in the order they were added.
pub proof fn lemma_install_blocks_in_order(
    table: Map<Seq<char>, Seq<u8>>,
    package: Seq<char>,
    script: Seq<char>,
    first: Seq<u8>,
    second: Seq<u8>,
)
    requires
        !table.contains_key(fragment_name(package, script)),
        !is_removal_script(script),
    ensures
        accumulated(accumulated(table, package, script, first), package, script, second)[fragment_name(
            package,
            script,
        )] == first + second,
{
}

/// Blocks accumulated for a removal script (`prerm`, `postrm`), starting
/// from no fragments, stand newest first.
pub proof fn lemma_removal_blocks_newest_first(
    table: Map<Seq<char>, Seq<u8>>,
    package: Seq<char>,
    script: Seq<char>,
    first: Seq<u8>,
    second: Seq<u8>,
)
    requires
        !table.contains_key(fragment_name(package, script)),
        is_removal_script(script),
    ensures
        accumulated(accumulated(table, package, script, first), package, script, second)[fragment_name(
            package,
            script,
        )] == second + first,
{
}

/// Each accumulation adds the lines of the rendered template and the two
/// banner lines, where the tool name holds no newline.
pub proof fn lemma_block_adds_two_lines(
    table: Map<Seq<char>, Seq<u8>>,
    package: Seq<char>,
    script: Seq<char>,
    tool: Seq<char>,
    rendered: Seq<u8>,
)
    requires
        !tool.contains('\n'),
    ensures
        newline_count(
            accumulated(table, package, script, wrapped(tool, rendered))[fragment_name(package, script)],
        ) == newline_count(fragments_of(table, package, script)) + newline_count(rendered) + 2,
{
    let head = "# Automatically added by "@;
    let close_text = "# End automatically added section"@;
    reveal_strlit("# Automatically added by ");
    reveal_strlit("# End automatically added section");
    reveal_strlit("# End automatically added section\n");
    reveal_strlit("\n");
    reveal_with_fuel(newline_chars, 2);
    lemma_newline_chars_none(head);
    lemma_newline_chars_none(close_text);
    lemma_encode_newlines(head + tool + "\n"@);
    lemma_newline_chars_concat(head, tool);
    lemma_newline_chars_concat(head + tool, "\n"@);
    lemma_newline_chars_none(tool);
    assert("# End automatically added section\n"@ =~= close_text + "\n"@);
    lemma_encode_newlines("# End automatically added section\n"@);
    lemma_newline_chars_concat(close_text, "\n"@);
    let block = wrapped(tool, rendered);
    lemma_newline_count_concat(banner_open(tool), rendered);
    lemma_newline_count_concat(banner_open(tool) + rendered, banner_close());
    assert(newline_count(block) == newline_count(rendered) + 2);
    let earlier = fragments_of(table, package, script);
    lemma_newline_count_concat(block, earlier);
    lemma_newline_count_concat(earlier, block);
}

} // verus!
