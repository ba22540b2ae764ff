//! Small helpers on paths and string sets.
use std::collections::BTreeSet;

use vstd::prelude::*;
use vstd::utf8::encode_utf8;

use crate::paths::strings_view;

verus! {

/// The final component of a path, as `std::path::Path::file_name` gives it.
pub uninterp spec fn file_name_of(path: Seq<char>) -> Option<Seq<char>>;

/// Relies on `std::path::Path::file_name`: the final component of the path,
/// if it has one. The path comes from a `&str`, so the name is valid UTF-8
/// and `to_string_lossy` keeps it as it is.
#[verifier::external_body]
fn path_file_name(path: &str) -> (r: Option<String>)
    ensures
        match r {
            Some(n) => file_name_of(path@) == Some(n@),
            None => file_name_of(path@) is None,
        },
{
    match std::path::Path::new(path).file_name() {
        Some(name) => Some(name.to_string_lossy().into_owned()),
        None => None,
    }
}

/// The file name of `path`: its final component, even where the path looks
/// like a directory (`"some/dir/"` gives `"dir"`).
pub fn fname_from_path(path: &str) -> (r: String)
    requires
        file_name_of(path@) is Some,
    ensures
        file_name_of(path@) == Some(r@),
{
    match path_file_name(path) {
        Some(name) => name,
        None => vstd::pervasive::unreached(),
    }
}

/// The file name of `path`, or `None` where it has none (an empty path, a
/// root, a path ending in `..`).
pub fn try_fname_from_path(path: &str) -> (r: Option<String>)
    ensures
        match r {
            Some(n) => file_name_of(path@) == Some(n@),
            None => file_name_of(path@) is None,
        },
{
    match path_file_name(path) {
        Some(_) => Some(fname_from_path(path)),
        None => None,
    }
}

/// Whether `a` comes before `b` in lexicographic byte order.
pub open spec fn bytes_before(a: Seq<u8>, b: Seq<u8>) -> bool
    decreases a.len(),
{
    if a.len() == 0 {
        b.len() > 0
    } else if b.len() == 0 {
        false
    } else if a[0] != b[0] {
        a[0] < b[0]
    } else {
        bytes_before(a.drop_first(), b.drop_first())
    }
}

/// Whether `items` stand in strictly ascending order, as strings order:
/// by the bytes of their UTF-8 encoding.
pub open spec fn ascending(items: Seq<Seq<char>>) -> bool {
    forall|i: int, j: int|
        0 <= i < j < items.len() ==> bytes_before(encode_utf8(#[trigger] items[i]), encode_utf8(#[trigger] items[j]))
}

/// `items` with `sep` between each two neighbours.
pub open spec fn joined(items: Seq<Seq<char>>, sep: Seq<char>) -> Seq<char>
    decreases items.len(),
{
    if items.len() == 0 {
        Seq::empty()
    } else if items.len() == 1 {
        items[0]
    } else {
        joined(items.drop_last(), sep) + sep + items.last()
    }
}

/// Relies on `BTreeSet::iter`: it visits each item once, in ascending order.
#[verifier::external_body]
fn items_in_order(set: &BTreeSet<String>) -> (r: Vec<String>)
    ensures
        strings_view(r@).to_set() == set@.map(|s: String| s@),
        ascending(strings_view(r@)),
{
    set.iter().cloned().collect()
}

/// `items` with `sep` between each two neighbours.
pub fn join_strings(items: &Vec<String>, sep: &str) -> (r: String)
    ensures
        r@ == joined(strings_view(items@), sep@),
{
    let ghost all = strings_view(items@);
    let mut r = String::new();
    if items.len() == 0 {
        return r;
    }
    r.append(items[0].as_str());
    let mut i: usize = 1;
    assert(all.take(1) =~= seq![all[0]]);
    while i < items.len()
        invariant
            1 <= i <= items@.len(),
            all == strings_view(items@),
            r@ == joined(all.take(i as int), sep@),
        decreases items@.len() - i,
    {
        r.append(sep);
        r.append(items[i].as_str());
        assert(all.take(i + 1).drop_last() =~= all.take(i as int));
        i = i + 1;
    }
    assert(all.take(i as int) =~= all);
    r
}

/// Joining the items of a collection into one string.
pub trait JoinStrings {
    /// The items, in the collection's order, with `sep` between each two.
    fn join(&self, sep: &str) -> String;
}

impl JoinStrings for BTreeSet<String> {
    /// The items in ascending order with `sep` between each two.
    fn join(&self, sep: &str) -> (r: String)
        ensures
            exists|items: Seq<Seq<char>>|
                items.to_set() == self@.map(|s: String| s@) && ascending(items) && r@ == joined(
                    items,
                    sep@,
                ),
    {
        let items = items_in_order(self);
        join_strings(&items, sep)
    }
}

} // verus!
