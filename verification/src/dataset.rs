//! An element's `data-*` attributes as the browser's DOMStringMap keys
//! them: `data-row-id` reads as `dataset.rowId`.

use vstd::prelude::*;

use crate::strings::{chars_of, push_char, push_chars};

verus! {

/// The characters `char::to_uppercase` yields for `c`.
pub uninterp spec fn uppercase_of(c: char) -> Seq<char>;

/// `char::to_uppercase`, collected: the uppercase mapping of `c` (one or
/// more characters). Stated: the result is a function of `c`, and an ASCII
/// lowercase letter maps to its capital. Not stated: any other mapping.
#[verifier::external_body]
fn uppercase(c: char) -> (up: Vec<char>)
    ensures
        up@ == uppercase_of(c),
        'a' <= c <= 'z' ==> up@ == seq![((c as u32) - 32) as char],
{
    c.to_uppercase().collect()
}

/// A left-to-right pass over a kebab-case name: the camelCase text so far
/// and whether the next character is to be capitalised.
pub open spec fn camel_fold(s: Seq<char>) -> (Seq<char>, bool)
    decreases s.len(),
{
    if s.len() == 0 {
        (Seq::empty(), false)
    } else {
        let (out, upper) = camel_fold(s.drop_last());
        let c = s.last();
        if c == '-' {
            (out, true)
        } else if upper {
            (out + uppercase_of(c), false)
        } else {
            (out.push(c), false)
        }
    }
}

/// A kebab-case name in camelCase: each `-` dropped and the character
/// after a run of them capitalised.
pub open spec fn camel_spec(s: Seq<char>) -> Seq<char> {
    camel_fold(s).0
}

/// An ASCII lowercase letter's capital.
pub open spec fn ascii_capital(c: char) -> char {
    ((c as u32) - 32) as char
}

/// The camelCase pass with capitals spelled out for ASCII lowercase
/// letters.
pub open spec fn ascii_camel_fold(s: Seq<char>) -> (Seq<char>, bool)
    decreases s.len(),
{
    if s.len() == 0 {
        (Seq::empty(), false)
    } else {
        let (out, upper) = ascii_camel_fold(s.drop_last());
        let c = s.last();
        if c == '-' {
            (out, true)
        } else if upper {
            (out.push(ascii_capital(c)), false)
        } else {
            (out.push(c), false)
        }
    }
}

/// Every character that camelCase capitalises (the first after a run of
/// hyphens) is an ASCII lowercase letter.
pub open spec fn capitals_are_ascii(s: Seq<char>) -> bool {
    forall|i: int|
        1 <= i < s.len() && s[i - 1] == '-' && s[i] != '-' ==> 'a' <= #[trigger] s[i] <= 'z'
}

/// A kebab-case name in camelCase (`row-id` becomes `rowId`); where every
/// capitalised character is an ASCII lowercase letter, the result is
/// spelled out with ASCII capitals.
pub fn camel_case(kebab: &str) -> (out: String)
    ensures
        out@ == camel_spec(kebab@),
        capitals_are_ascii(kebab@) ==> out@ == ascii_camel_fold(kebab@).0,
{
    let cs = chars_of(kebab);
    let mut out = String::new();
    let mut upper = false;
    let mut i: usize = 0;
    while i < cs.len()
        invariant
            0 <= i <= cs@.len(),
            cs@ == kebab@,
            (out@, upper) == camel_fold(cs@.take(i as int)),
            upper == ascii_camel_fold(cs@.take(i as int)).1,
            upper == (i > 0 && cs@[i - 1] == '-'),
            capitals_are_ascii(kebab@) ==> out@ == ascii_camel_fold(cs@.take(i as int)).0,
        decreases cs@.len() - i,
    {
        assert(cs@.take(i + 1).drop_last() =~= cs@.take(i as int));
        assert(cs@.take(i + 1).last() == cs@[i as int]);
        let c = cs[i];
        if c == '-' {
            upper = true;
        } else if upper {
            push_chars(&mut out, &uppercase(c));
            upper = false;
        } else {
            push_char(&mut out, c);
        }
        i = i + 1;
    }
    assert(cs@.take(cs@.len() as int) =~= cs@);
    out
}

/// The dataset key of an attribute name: `Some` of the camelCased rest
/// for a `data-` name, `None` for any other.
pub open spec fn dataset_key_spec(name: Seq<char>) -> Option<Seq<char>> {
    if name.len() >= 5 && name.take(5) == seq!['d', 'a', 't', 'a', '-'] {
        Some(camel_spec(name.skip(5)))
    } else {
        None
    }
}

/// The dataset key an attribute appears under, `None` when it is not a
/// `data-*` attribute.
pub fn dataset_key(name: &str) -> (key: Option<String>)
    ensures
        match key {
            Some(k) => dataset_key_spec(name@) == Some(k@),
            None => dataset_key_spec(name@) is None,
        },
{
    let cs = chars_of(name);
    let prefixed = cs.len() >= 5 && cs[0] == 'd' && cs[1] == 'a' && cs[2] == 't' && cs[3] == 'a'
        && cs[4] == '-';
    proof {
        if cs@.len() >= 5 {
            let head = cs@.take(5);
            assert(prefixed ==> head =~= seq!['d', 'a', 't', 'a', '-']);
            assert(head == seq!['d', 'a', 't', 'a', '-'] ==> head[0] == 'd' && head[1] == 'a'
                && head[2] == 't' && head[3] == 'a' && head[4] == '-');
        }
    }
    if !prefixed {
        return None;
    }
    let mut rest = String::new();
    let mut i: usize = 5;
    while i < cs.len()
        invariant
            5 <= i <= cs@.len(),
            cs@ == name@,
            rest@ == cs@.subrange(5, i as int),
        decreases cs@.len() - i,
    {
        push_char(&mut rest, cs[i]);
        assert(cs@.subrange(5, i + 1) =~= cs@.subrange(5, i as int).push(cs@[i as int]));
        i = i + 1;
    }
    assert(cs@.skip(5) =~= cs@.subrange(5, cs@.len() as int));
    Some(camel_case(rest.as_str()))
}

proof fn lemma_plain_fold(s: Seq<char>)
    requires
        forall|i: int| 0 <= i < s.len() ==> s[i] != '-',
    ensures
        camel_fold(s) == (s, false),
    decreases s.len(),
{
    if s.len() > 0 {
        let t = s.drop_last();
        assert forall|i: int| 0 <= i < t.len() implies t[i] != '-' by {
            assert(t[i] == s[i]);
        }
        lemma_plain_fold(t);
        assert(t.push(s.last()) =~= s);
    }
}

/// A name without hyphens is its own camelCase form.
pub proof fn law_plain_names_unchanged(s: Seq<char>)
    requires
        forall|i: int| 0 <= i < s.len() ==> s[i] != '-',
    ensures
        camel_spec(s) == s,
{
    lemma_plain_fold(s);
}

} // verus!
