//! Byte-level text operations: token substitution and line counting.
use vstd::prelude::*;
use vstd::utf8::*;

verus! {

/// Relies on `std::str::from_utf8`: it succeeds exactly on valid UTF-8.
#[verifier::external_body]
pub(crate) fn is_utf8(bytes: &Vec<u8>) -> (r: bool)
    ensures
        r == valid_utf8(bytes@),
{
    std::str::from_utf8(bytes.as_slice()).is_ok()
}

/// Whether `pat` occurs in `s` starting at byte offset `i`.
pub open spec fn occurs_at(s: Seq<u8>, pat: Seq<u8>, i: int) -> bool {
    0 <= i && i + pat.len() <= s.len() && s.subrange(i, i + pat.len()) == pat
}

/// Whether `pat` occurs anywhere in `s`.
pub open spec fn contains_seq(s: Seq<u8>, pat: Seq<u8>) -> bool {
    exists|i: int| occurs_at(s, pat, i)
}

/// `s` with every occurrence of a non-empty `pat` replaced by `rep`, the
/// occurrences being taken from the left without overlap. An empty `pat`
/// leaves `s` as it is.
pub open spec fn replace_all(s: Seq<u8>, pat: Seq<u8>, rep: Seq<u8>) -> Seq<u8>
    decreases s.len(),
{
    if pat.len() == 0 || s.len() < pat.len() {
        s
    } else if s.subrange(0, pat.len() as int) == pat {
        rep + replace_all(s.subrange(pat.len() as int, s.len() as int), pat, rep)
    } else {
        seq![s[0]] + replace_all(s.subrange(1, s.len() as int), pat, rep)
    }
}

/// The number of newline bytes in `s`.
pub open spec fn newline_count(s: Seq<u8>) -> nat
    decreases s.len(),
{
    if s.len() == 0 {
        0
    } else {
        (if s[0] == 10u8 { 1nat } else { 0nat }) + newline_count(s.subrange(1, s.len() as int))
    }
}

/// Newlines of a concatenation add up.
pub proof fn lemma_newline_count_concat(a: Seq<u8>, b: Seq<u8>)
    ensures
        newline_count(a + b) == newline_count(a) + newline_count(b),
    decreases a.len(),
{
    if a.len() == 0 {
        assert(a + b =~= b);
    } else {
        assert((a + b).subrange(1, (a + b).len() as int) =~= a.subrange(1, a.len() as int) + b);
        lemma_newline_count_concat(a.subrange(1, a.len() as int), b);
    }
}

/// A sequence without a newline byte counts none.
pub proof fn lemma_newline_count_none(s: Seq<u8>)
    requires
        forall|i: int| 0 <= i < s.len() ==> s[i] != 10u8,
    ensures
        newline_count(s) == 0,
    decreases s.len(),
{
    if s.len() > 0 {
        lemma_newline_count_none(s.subrange(1, s.len() as int));
    }
}

/// Replacing in a text where the pattern never occurs changes nothing.
pub proof fn lemma_replace_all_absent(s: Seq<u8>, pat: Seq<u8>, rep: Seq<u8>)
    requires
        !contains_seq(s, pat),
    ensures
        replace_all(s, pat, rep) == s,
    decreases s.len(),
{
    if pat.len() == 0 || s.len() < pat.len() {
    } else {
        assert(!occurs_at(s, pat, 0));
        let rest = s.subrange(1, s.len() as int);
        assert forall|i: int| !occurs_at(rest, pat, i) by {
            if occurs_at(rest, pat, i) {
                assert(s.subrange(i + 1, i + 1 + pat.len()) =~= rest.subrange(i, i + pat.len()));
                assert(occurs_at(s, pat, i + 1));
            }
        }
        lemma_replace_all_absent(rest, pat, rep);
        assert(seq![s[0]] + rest =~= s);
    }
}

/// Replacing by something no longer than the pattern never lengthens.
pub proof fn lemma_replace_all_not_longer(s: Seq<u8>, pat: Seq<u8>, rep: Seq<u8>)
    requires
        rep.len() <= pat.len(),
    ensures
        replace_all(s, pat, rep).len() <= s.len(),
    decreases s.len(),
{
    if pat.len() == 0 || s.len() < pat.len() {
    } else if s.subrange(0, pat.len() as int) == pat {
        lemma_replace_all_not_longer(s.subrange(pat.len() as int, s.len() as int), pat, rep);
    } else {
        lemma_replace_all_not_longer(s.subrange(1, s.len() as int), pat, rep);
    }
}

/// Replacing by something no shorter than the pattern never shortens.
pub proof fn lemma_replace_all_not_shorter(s: Seq<u8>, pat: Seq<u8>, rep: Seq<u8>)
    requires
        rep.len() >= pat.len(),
    ensures
        replace_all(s, pat, rep).len() >= s.len(),
    decreases s.len(),
{
    if pat.len() == 0 || s.len() < pat.len() {
    } else if s.subrange(0, pat.len() as int) == pat {
        lemma_replace_all_not_shorter(s.subrange(pat.len() as int, s.len() as int), pat, rep);
    } else {
        lemma_replace_all_not_shorter(s.subrange(1, s.len() as int), pat, rep);
    }
}

/// Where a non-empty pattern occurs and the replacement differs from it, the
/// text changes.
pub proof fn lemma_replace_all_changes(s: Seq<u8>, pat: Seq<u8>, rep: Seq<u8>)
    requires
        pat.len() > 0,
        contains_seq(s, pat),
        rep != pat,
    ensures
        replace_all(s, pat, rep) != s,
    decreases s.len(),
{
    let i = choose|i: int| occurs_at(s, pat, i);
    let r = replace_all(s, pat, rep);
    let plen = pat.len() as int;
    if s.subrange(0, plen) == pat {
        let rest = s.subrange(plen, s.len() as int);
        if rep.len() == pat.len() {
            assert(r.subrange(0, plen) =~= rep);
        } else if rep.len() < pat.len() {
            lemma_replace_all_not_longer(rest, pat, rep);
        } else {
            lemma_replace_all_not_shorter(rest, pat, rep);
        }
    } else {
        assert(i != 0);
        let rest = s.subrange(1, s.len() as int);
        assert(rest.subrange(i - 1, i - 1 + plen) =~= s.subrange(i, i + plen));
        assert(occurs_at(rest, pat, i - 1));
        lemma_replace_all_changes(rest, pat, rep);
        if r == s {
            assert(r.subrange(1, r.len() as int) =~= replace_all(rest, pat, rep));
        }
    }
}

/// The number of newline characters in `s`.
pub open spec fn newline_chars(s: Seq<char>) -> nat
    decreases s.len(),
{
    if s.len() == 0 {
        0
    } else {
        (if s[0] == '\n' { 1nat } else { 0nat }) + newline_chars(s.drop_first())
    }
}

/// UTF-8 encoding distributes over concatenation.
pub proof fn lemma_encode_concat(a: Seq<char>, b: Seq<char>)
    ensures
        encode_utf8(a + b) == encode_utf8(a) + encode_utf8(b),
    decreases a.len(),
{
    if a.len() == 0 {
        assert(a + b =~= b);
        assert(encode_utf8(a) + encode_utf8(b) =~= encode_utf8(b));
    } else {
        assert((a + b).drop_first() =~= a.drop_first() + b);
        assert((a + b)[0] == a[0]);
        lemma_encode_concat(a.drop_first(), b);
        assert(encode_utf8(a + b) =~= encode_utf8(a) + encode_utf8(b));
    }
}

/// The encoding of one character holds a newline byte exactly when the
/// character is a newline.
proof fn lemma_encode_char_newlines(c: char)
    ensures
        newline_count(encode_scalar(c as u32)) == (if c == '\n' { 1nat } else { 0nat }),
{
    reveal_with_fuel(newline_count, 5);
    let v = c as u32;
    let bytes = encode_scalar(v);
    if has_width_1_encoding(v) {
        assert(((v & 0x7F) as u8 == 10u8) == (v == 10u32)) by (bit_vector)
            requires
                v <= 0x7F,
        ;
        assert(bytes.subrange(1, 1) =~= Seq::<u8>::empty());
    } else {
        assert(forall|x: u32| #[trigger] (0xC0u8 | ((x >> 6) & 0x1F) as u8) != 10u8) by (bit_vector);
        assert(forall|x: u32| #[trigger] (0xE0u8 | ((x >> 12) & 0x0F) as u8) != 10u8) by (bit_vector);
        assert(forall|x: u32| #[trigger] (0xF0u8 | ((x >> 18) & 0x7) as u8) != 10u8) by (bit_vector);
        assert(forall|x: u32| #[trigger] (0x80u8 | (x & 0x3F) as u8) != 10u8) by (bit_vector);
        assert(forall|x: u32| #[trigger] (0x80u8 | ((x >> 6) & 0x3F) as u8) != 10u8) by (bit_vector);
        assert(forall|x: u32| #[trigger] (0x80u8 | ((x >> 12) & 0x3F) as u8) != 10u8) by (bit_vector);
        assert(forall|i: int| 0 <= i < bytes.len() ==> bytes[i] != 10u8);
        lemma_newline_count_none(bytes);
    }
}

/// Newline bytes of an encoding count the newline characters.
pub proof fn lemma_encode_newlines(s: Seq<char>)
    ensures
        newline_count(encode_utf8(s)) == newline_chars(s),
    decreases s.len(),
{
    if s.len() > 0 {
        lemma_encode_char_newlines(s[0]);
        lemma_newline_count_concat(encode_scalar(s[0] as u32), encode_utf8(s.drop_first()));
        lemma_encode_newlines(s.drop_first());
    }
}

/// Newline characters of a concatenation add up.
pub proof fn lemma_newline_chars_concat(a: Seq<char>, b: Seq<char>)
    ensures
        newline_chars(a + b) == newline_chars(a) + newline_chars(b),
    decreases a.len(),
{
    if a.len() == 0 {
        assert(a + b =~= b);
    } else {
        assert((a + b).drop_first() =~= a.drop_first() + b);
        lemma_newline_chars_concat(a.drop_first(), b);
    }
}

/// A sequence without a newline character counts none.
pub proof fn lemma_newline_chars_none(s: Seq<char>)
    requires
        !s.contains('\n'),
    ensures
        newline_chars(s) == 0,
    decreases s.len(),
{
    if s.len() > 0 {
        assert(s[0] != '\n');
        assert forall|i: int| 0 <= i < s.drop_first().len() implies s.drop_first()[i] != '\n' by {
            assert(s.drop_first()[i] == s[i + 1]);
        }
        lemma_newline_chars_none(s.drop_first());
    }
}

/// Whether `pat` occurs in `s` at offset `i`.
pub fn bytes_occur_at(s: &Vec<u8>, pat: &Vec<u8>, i: usize) -> (r: bool)
    ensures
        r == occurs_at(s@, pat@, i as int),
{
    if pat.len() > s.len() || i > s.len() - pat.len() {
        return false;
    }
    let mut j: usize = 0;
    while j < pat.len()
        invariant
            j <= pat.len(),
            i + pat.len() <= s.len(),
            forall|k: int| 0 <= k < j ==> s@[i + k] == pat@[k],
        decreases pat.len() - j,
    {
        if s[i + j] != pat[j] {
            assert(s@.subrange(i as int, i + pat.len())[j as int] != pat@[j as int]);
            return false;
        }
        j = j + 1;
    }
    assert(s@.subrange(i as int, i + pat.len()) =~= pat@);
    true
}

/// Whether two byte vectors hold the same bytes.
pub fn bytes_equal(a: &Vec<u8>, b: &Vec<u8>) -> (r: bool)
    ensures
        r == (a@ == b@),
{
    if a.len() != b.len() {
        return false;
    }
    let mut i: usize = 0;
    while i < a.len()
        invariant
            i <= a.len(),
            a.len() == b.len(),
            forall|k: int| 0 <= k < i ==> a@[k] == b@[k],
        decreases a.len() - i,
    {
        if a[i] != b[i] {
            return false;
        }
        i = i + 1;
    }
    assert(a@ =~= b@);
    true
}

/// Appends all of `src` to `out`.
pub fn push_all(out: &mut Vec<u8>, src: &Vec<u8>)
    ensures
        final(out)@ == old(out)@ + src@,
{
    let ghost start = out@;
    let mut i: usize = 0;
    while i < src.len()
        invariant
            i <= src.len(),
            out@ == start + src@.subrange(0, i as int),
        decreases src.len() - i,
    {
        out.push(src[i]);
        i = i + 1;
        assert(out@ =~= start + src@.subrange(0, i as int));
    }
    assert(src@.subrange(0, i as int) =~= src@);
}

/// Replaces every occurrence of a non-empty `pat` in `s` by `rep`.
pub fn replace_bytes(s: &Vec<u8>, pat: &Vec<u8>, rep: &Vec<u8>) -> (r: Vec<u8>)
    requires
        pat@.len() > 0,
    ensures
        r@ == replace_all(s@, pat@, rep@),
{
    let mut out: Vec<u8> = Vec::new();
    let mut i: usize = 0;
    assert(s@.subrange(0, s@.len() as int) =~= s@);
    assert(out@ + replace_all(s@, pat@, rep@) =~= replace_all(s@, pat@, rep@));
    while i < s.len()
        invariant
            i <= s.len(),
            pat@.len() > 0,
            out@ + replace_all(s@.subrange(i as int, s@.len() as int), pat@, rep@) == replace_all(
                s@,
                pat@,
                rep@,
            ),
        decreases s.len() - i,
    {
        let ghost rest = s@.subrange(i as int, s@.len() as int);
        if bytes_occur_at(s, pat, i) {
            assert(rest.subrange(0, pat@.len() as int) =~= s@.subrange(i as int, i + pat@.len()));
            assert(rest.subrange(pat@.len() as int, rest.len() as int) =~= s@.subrange(
                i + pat@.len(),
                s@.len() as int,
            ));
            let ghost before = out@;
            push_all(&mut out, rep);
            i = i + pat.len();
            assert(out@ + replace_all(s@.subrange(i as int, s@.len() as int), pat@, rep@) =~= before
                + replace_all(rest, pat@, rep@));
        } else {
            assert(rest.subrange(1, rest.len() as int) =~= s@.subrange(i + 1, s@.len() as int));
            proof {
                if rest.len() >= pat@.len() {
                    assert(rest.subrange(0, pat@.len() as int) =~= s@.subrange(
                        i as int,
                        i + pat@.len(),
                    ));
                } else {
                    assert(rest =~= seq![rest[0]] + rest.subrange(1, rest.len() as int));
                }
            }
            let ghost before = out@;
            out.push(s[i]);
            i = i + 1;
            assert(out@ + replace_all(s@.subrange(i as int, s@.len() as int), pat@, rep@) =~= before
                + replace_all(rest, pat@, rep@));
        }
    }
    assert(s@.subrange(i as int, s@.len() as int) =~= Seq::<u8>::empty());
    assert(out@ + Seq::<u8>::empty() =~= out@);
    out
}

} // verus!
