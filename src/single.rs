//! Recognition of a source that is exactly one bare variable reference,
//! such as `{{ name }}`, whose value is then used with its own type.
use vstd::prelude::*;
use vstd::std_specs::iter::IteratorSpec;

verus! {

broadcast use vstd::string::group_string_axioms;

/// A white-space character in Unicode's sense.
pub open spec fn is_space(c: char) -> bool {
    ||| '\t' <= c <= '\r'
    ||| c == ' '
    ||| c == '\u{85}'
    ||| c == '\u{a0}'
    ||| c == '\u{1680}'
    ||| '\u{2000}' <= c <= '\u{200a}'
    ||| c == '\u{2028}'
    ||| c == '\u{2029}'
    ||| c == '\u{202f}'
    ||| c == '\u{205f}'
    ||| c == '\u{3000}'
}

/// A character of a variable name: an ASCII letter or digit, or `_`.
pub open spec fn is_word(c: char) -> bool {
    ||| 'a' <= c <= 'z'
    ||| 'A' <= c <= 'Z'
    ||| '0' <= c <= '9'
    ||| c == '_'
}

/// The first position at or after `i` that does not hold white space.
pub open spec fn skip_space(s: Seq<char>, i: int) -> int
    decreases s.len() - i,
{
    if 0 <= i < s.len() && is_space(s[i]) {
        skip_space(s, i + 1)
    } else {
        i
    }
}

/// The first position at or after `i` that does not hold a name character.
pub open spec fn skip_word(s: Seq<char>, i: int) -> int
    decreases s.len() - i,
{
    if 0 <= i < s.len() && is_word(s[i]) {
        skip_word(s, i + 1)
    } else {
        i
    }
}

/// Whether `s` holds `a` then `b` at position `i`.
pub open spec fn holds_pair(s: Seq<char>, i: int, a: char, b: char) -> bool {
    0 <= i && i + 1 < s.len() && s[i] == a && s[i + 1] == b
}

/// The name that `s` refers to, where `s` is white space, `{{`, white space,
/// a name, white space, `}}` and white space, and nothing else.
pub open spec fn single_reference(s: Seq<char>) -> Option<Seq<char>> {
    let open = skip_space(s, 0);
    let start = skip_space(s, open + 2);
    let end = skip_word(s, start);
    let close = skip_space(s, end);
    if holds_pair(s, open, '{', '{') && holds_pair(s, close, '}', '}') && skip_space(s, close + 2)
        == s.len() {
        Some(s.subrange(start, end))
    } else {
        None
    }
}

fn space_char(c: char) -> (r: bool)
    ensures
        r == is_space(c),
{
    ('\t' <= c && c <= '\r') || c == ' ' || c == '\u{85}' || c == '\u{a0}' || c == '\u{1680}' || (
    '\u{2000}' <= c && c <= '\u{200a}') || c == '\u{2028}' || c == '\u{2029}' || c == '\u{202f}'
        || c == '\u{205f}' || c == '\u{3000}'
}

fn word_char(c: char) -> (r: bool)
    ensures
        r == is_word(c),
{
    ('a' <= c && c <= 'z') || ('A' <= c && c <= 'Z') || ('0' <= c && c <= '9') || c == '_'
}

fn skip_space_from(cs: &Vec<char>, i: usize) -> (r: usize)
    requires
        i <= cs@.len(),
    ensures
        r as int == skip_space(cs@, i as int),
        i <= r <= cs@.len(),
{
    let mut j = i;
    while j < cs.len() && space_char(cs[j])
        invariant
            i <= j <= cs@.len(),
            skip_space(cs@, j as int) == skip_space(cs@, i as int),
        decreases cs@.len() - j,
    {
        j += 1;
    }
    j
}

fn skip_word_from(cs: &Vec<char>, i: usize) -> (r: usize)
    requires
        i <= cs@.len(),
    ensures
        r as int == skip_word(cs@, i as int),
        i <= r <= cs@.len(),
{
    let mut j = i;
    while j < cs.len() && word_char(cs[j])
        invariant
            i <= j <= cs@.len(),
            skip_word(cs@, j as int) == skip_word(cs@, i as int),
        decreases cs@.len() - j,
    {
        j += 1;
    }
    j
}

fn chars_of(s: &str) -> (r: Vec<char>)
    ensures
        r@ == s@,
{
    let mut cs: Vec<char> = Vec::new();
    let mut it = s.chars();
    loop
        invariant
            it.obeys_prophetic_iter_laws(),
            cs@ + it.remaining() == s@,
        decreases s@.len() - cs@.len(),
    {
        match it.next() {
            Some(c) => {
                assert(cs@.push(c) + it.remaining() =~= s@);
                cs.push(c);
            },
            None => {
                assert(cs@ =~= s@);
                return cs;
            },
        }
    }
}

/// The name that `s` refers to, where `s` is exactly one bare reference to a
/// variable, with white space around it allowed and nothing else.
pub fn single_value(s: &str) -> (r: Option<String>)
    ensures
        r is Some <==> single_reference(s@) is Some,
        r matches Some(k) ==> k@ == single_reference(s@)->0,
{
    let cs = chars_of(s);
    let n = cs.len();
    let open = skip_space_from(&cs, 0);
    if !(open < n && n - open > 1 && cs[open] == '{' && cs[open + 1] == '{') {
        return None;
    }
    let start = skip_space_from(&cs, open + 2);
    let end = skip_word_from(&cs, start);
    let close = skip_space_from(&cs, end);
    if !(close < n && n - close > 1 && cs[close] == '}' && cs[close + 1] == '}') {
        return None;
    }
    if skip_space_from(&cs, close + 2) != n {
        return None;
    }
    let name = s.substring_char(start, end);
    Some(name.to_string())
}

} // verus!
