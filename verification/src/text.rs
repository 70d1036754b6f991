//! Character-level text operations: prefix tests, search and replacement.
//!
//! Every operation is specified over `Seq<char>`, the view of `str` and
//! `String`.

use vstd::prelude::*;
use vstd::string::*;
use vstd::utf8::{char_u32_cast, encode_scalar, encode_utf8, encode_utf8_first_scalar};

verus! {

/// `needle` occurs in `hay` starting at position `at`.
pub open spec fn occurs_at(hay: Seq<char>, needle: Seq<char>, at: int) -> bool {
    &&& 0 <= at
    &&& at + needle.len() <= hay.len()
    &&& hay.subrange(at, at + needle.len()) == needle
}

/// `needle` occurs somewhere in `hay`.
pub open spec fn contains(hay: Seq<char>, needle: Seq<char>) -> bool {
    exists|at: int| occurs_at(hay, needle, at)
}

/// `needle` occurs in `hay` at `at` and nowhere before.
pub open spec fn is_first_occurrence(hay: Seq<char>, needle: Seq<char>, at: int) -> bool {
    &&& occurs_at(hay, needle, at)
    &&& forall|earlier: int| 0 <= earlier < at ==> !occurs_at(hay, needle, earlier)
}

/// `hay` with its first occurrence of `needle` replaced by `with`; `hay`
/// itself when `needle` does not occur.
pub open spec fn replace_first(hay: Seq<char>, needle: Seq<char>, with: Seq<char>) -> Seq<char> {
    if contains(hay, needle) {
        let at = choose|at: int| is_first_occurrence(hay, needle, at);
        hay.subrange(0, at) + with + hay.subrange(at + needle.len(), hay.len() as int)
    } else {
        hay
    }
}

/// `hay` with every occurrence of `needle` replaced by `with`, scanning from
/// the left and resuming after each match. An empty `needle` matches before
/// every character and at the end.
pub open spec fn replace_all(hay: Seq<char>, needle: Seq<char>, with: Seq<char>) -> Seq<char>
    decreases hay.len(),
{
    if needle.len() == 0 {
        if hay.len() == 0 {
            with
        } else {
            with.push(hay[0]) + replace_all(hay.skip(1), needle, with)
        }
    } else if needle.is_prefix_of(hay) {
        with + replace_all(hay.skip(needle.len() as int), needle, with)
    } else if hay.len() == 0 {
        hay
    } else {
        seq![hay[0]] + replace_all(hay.skip(1), needle, with)
    }
}

/// Comparing by characters is comparing by bytes: `prefix` is a prefix of
/// `text` exactly when the UTF-8 encoding of `prefix` is a prefix of the
/// UTF-8 encoding of `text`.
pub proof fn lemma_prefix_bytewise(prefix: Seq<char>, text: Seq<char>)
    ensures
        prefix.is_prefix_of(text) <==> encode_utf8(prefix).is_prefix_of(encode_utf8(text)),
    decreases prefix.len(),
{
    // By induction on `prefix`. Each encoding begins with the encoding of its
    // first character, whose leading byte fixes its length: where the bytes
    // agree, the first characters agree, and the rests are compared in turn.
    let prefix_bytes = encode_utf8(prefix);
    let text_bytes = encode_utf8(text);
    if prefix.len() > 0 {
        encode_utf8_first_scalar(prefix);
        if text.len() > 0 {
            encode_utf8_first_scalar(text);
            let prefix_rest = prefix.drop_first();
            let text_rest = text.drop_first();
            let first = encode_scalar(prefix[0] as u32);
            lemma_prefix_bytewise(prefix_rest, text_rest);
            if prefix_bytes.is_prefix_of(text_bytes) {
                char_u32_cast(prefix[0], prefix[0] as u32);
                char_u32_cast(text[0], text[0] as u32);
                let rest_bytes = encode_utf8(prefix_rest);
                assert(encode_utf8(text_rest).subrange(0, rest_bytes.len() as int) =~= rest_bytes)
                    by {
                    assert forall|i: int| 0 <= i < rest_bytes.len() implies encode_utf8(
                        text_rest,
                    )[i] == rest_bytes[i] by {
                        assert(text_bytes[i + first.len()] == prefix_bytes[i + first.len()]);
                    }
                }
                assert(text.subrange(0, prefix.len() as int) =~= prefix) by {
                    assert forall|i: int| 0 <= i < prefix.len() implies text[i] == prefix[i] by {
                        if i > 0 {
                            assert(text_rest.subrange(0, prefix_rest.len() as int)[i - 1]
                                == prefix_rest[i - 1]);
                        }
                    }
                }
            }
        }
    }
}

/// An occurrence at `at` is a prefix of what remains after skipping `at`
/// characters.
pub proof fn lemma_occurrence_is_prefix_of_rest(hay: Seq<char>, needle: Seq<char>, at: int)
    requires
        0 <= at <= hay.len(),
    ensures
        occurs_at(hay, needle, at) <==> needle.is_prefix_of(hay.skip(at)),
{
    if at + needle.len() <= hay.len() {
        assert(hay.skip(at).subrange(0, needle.len() as int) =~= hay.subrange(
            at,
            at + needle.len(),
        ));
    }
}

/// Without an occurrence of `needle`, replacing the first one changes nothing.
pub proof fn lemma_replace_first_absent(hay: Seq<char>, needle: Seq<char>, with: Seq<char>)
    requires
        !contains(hay, needle),
    ensures
        replace_first(hay, needle, with) == hay,
{
}

/// Replacing the first occurrence keeps the text before it and the text after
/// it, later occurrences included, and puts `with` in between.
pub proof fn lemma_replace_first_at(
    hay: Seq<char>,
    needle: Seq<char>,
    with: Seq<char>,
    at: int,
)
    requires
        is_first_occurrence(hay, needle, at),
    ensures
        replace_first(hay, needle, with) == hay.subrange(0, at) + with + hay.subrange(
            at + needle.len(),
            hay.len() as int,
        ),
{
}

/// Without an occurrence of a non-empty `needle`, replacing every occurrence
/// changes nothing.
pub proof fn lemma_replace_all_absent(hay: Seq<char>, needle: Seq<char>, with: Seq<char>)
    requires
        needle.len() > 0,
        !contains(hay, needle),
    ensures
        replace_all(hay, needle, with) == hay,
    decreases hay.len(),
{
    if hay.len() > 0 {
        let rest = hay.skip(1);
        assert(!occurs_at(hay, needle, 0));
        assert forall|at: int| !occurs_at(rest, needle, at) by {
            if occurs_at(rest, needle, at) {
                assert(hay.subrange(at + 1, at + 1 + needle.len()) =~= rest.subrange(
                    at,
                    at + needle.len(),
                ));
                assert(occurs_at(hay, needle, at + 1));
            }
        }
        lemma_replace_all_absent(rest, needle, with);
    }
}

/// `String::push` appends exactly one character.
pub assume_specification[ String::push ](s: &mut String, ch: char)
    ensures
        final(s)@ == old(s)@.push(ch),
;

/// The characters of `s`, in order.
pub fn chars_of(s: &str) -> (chars: Vec<char>)
    ensures
        chars@ == s@,
{
    let mut chars: Vec<char> = Vec::new();
    for c in it: s.chars()
        invariant
            chars@ == it.seq().take(it.index() as int),
    {
        chars.push(c);
    }
    chars
}

/// Appends `src[from..to]` to `out`.
pub(crate) fn push_chars(out: &mut String, src: &[char], from: usize, to: usize)
    requires
        from <= to <= src@.len(),
    ensures
        final(out)@ == old(out)@ + src@.subrange(from as int, to as int),
{
    let mut i: usize = from;
    while i < to
        invariant
            from <= i <= to <= src@.len(),
            out@ == old(out)@ + src@.subrange(from as int, i as int),
        decreases to - i,
    {
        out.push(src[i]);
        i += 1;
    }
}

/// Whether `needle` occurs in `hay` at position `at`.
pub fn matches_at(hay: &[char], needle: &[char], at: usize) -> (found: bool)
    ensures
        found == occurs_at(hay@, needle@, at as int),
{
    if needle.len() > hay.len() || at > hay.len() - needle.len() {
        return false;
    }
    let mut k: usize = 0;
    while k < needle.len()
        invariant
            at + needle@.len() <= hay@.len() <= usize::MAX,
            k <= needle@.len(),
            forall|j: int| 0 <= j < k ==> hay@[at + j] == needle@[j],
        decreases needle.len() - k,
    {
        if hay[at + k] != needle[k] {
            return false;
        }
        k += 1;
    }
    assert(hay@.subrange(at as int, at + needle@.len()) =~= needle@);
    true
}

/// Position of the first occurrence of `needle` in `hay`.
pub fn find_first(hay: &[char], needle: &[char]) -> (found: Option<usize>)
    ensures
        match found {
            Some(at) => is_first_occurrence(hay@, needle@, at as int),
            None => !contains(hay@, needle@),
        },
{
    if needle.len() > hay.len() {
        return None;
    }
    let last: usize = hay.len() - needle.len();
    let mut at: usize = 0;
    loop
        invariant
            last + needle@.len() == hay@.len(),
            at <= last,
            forall|earlier: int| 0 <= earlier < at ==> !occurs_at(hay@, needle@, earlier),
        decreases last - at,
    {
        if matches_at(hay, needle, at) {
            return Some(at);
        }
        if at == last {
            return None;
        }
        at += 1;
    }
}

/// Whether `s` begins with `prefix`, character for character; by
/// [`lemma_prefix_bytewise`] that is byte for byte.
pub fn starts_with(s: &str, prefix: &str) -> (yes: bool)
    ensures
        yes == prefix@.is_prefix_of(s@),
{
    let text = chars_of(s);
    let head = chars_of(prefix);
    matches_at(text.as_slice(), head.as_slice(), 0)
}

/// `s` without its leading `prefix`, or `None` when `s` does not begin with
/// `prefix`.
pub fn strip_prefix(s: &str, prefix: &str) -> (rest: Option<String>)
    ensures
        match rest {
            Some(rest) => prefix@.is_prefix_of(s@) && rest@ == s@.skip(prefix@.len() as int),
            None => !prefix@.is_prefix_of(s@),
        },
{
    let text = chars_of(s);
    let head = chars_of(prefix);
    if matches_at(text.as_slice(), head.as_slice(), 0) {
        let mut rest = String::new();
        push_chars(&mut rest, text.as_slice(), head.len(), text.len());
        Some(rest)
    } else {
        None
    }
}

/// Replaces the first occurrence of `needle` in `hay` by `with`.
pub fn replace_first_in(hay: &str, needle: &str, with: &str) -> (out: String)
    ensures
        out@ == replace_first(hay@, needle@, with@),
{
    let text = chars_of(hay);
    let pattern = chars_of(needle);
    let mut out = String::new();
    match find_first(text.as_slice(), pattern.as_slice()) {
        Some(at) => {
            let total: usize = text.len();
            let resume: usize = at + pattern.len();
            push_chars(&mut out, text.as_slice(), 0, at);
            out.append(with);
            push_chars(&mut out, text.as_slice(), resume, total);
        },
        None => {
            push_chars(&mut out, text.as_slice(), 0, text.len());
        },
    }
    out
}

/// Replaces every occurrence of `needle` in `hay` by `with`.
pub fn replace_all_in(hay: &str, needle: &str, with: &str) -> (out: String)
    ensures
        out@ == replace_all(hay@, needle@, with@),
{
    let text = chars_of(hay);
    let pattern = chars_of(needle);
    let mut out = String::new();
    let mut at: usize = 0;
    assert(hay@.skip(0) =~= hay@);
    while at < text.len()
        invariant
            at <= text@.len(),
            text@ == hay@,
            pattern@ == needle@,
            out@ + replace_all(hay@.skip(at as int), needle@, with@) == replace_all(
                hay@,
                needle@,
                with@,
            ),
        decreases text.len() - at,
    {
        let ghost rest = hay@.skip(at as int);
        proof {
            lemma_occurrence_is_prefix_of_rest(hay@, needle@, at as int);
        }
        if pattern.len() == 0 {
            out.append(with);
            out.push(text[at]);
            assert(rest.skip(1) =~= hay@.skip(at + 1));
            at += 1;
        } else if matches_at(text.as_slice(), pattern.as_slice(), at) {
            out.append(with);
            assert(rest.skip(needle@.len() as int) =~= hay@.skip(at + needle@.len()));
            at += pattern.len();
        } else {
            out.push(text[at]);
            assert(rest.skip(1) =~= hay@.skip(at + 1));
            at += 1;
        }
    }
    if pattern.len() == 0 {
        out.append(with);
    }
    out
}

} // verus!
