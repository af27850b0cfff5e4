use vstd::prelude::*;
use vstd::string::*;

verus! {

/// Unicode's White_Space characters, the ones `char::is_whitespace` accepts.
pub open spec fn is_white_space(c: char) -> bool {
    ('\t' <= c && c <= '\r') || c == ' ' || c == '\u{85}' || c == '\u{a0}' || c == '\u{1680}'
        || ('\u{2000}' <= c && c <= '\u{200a}') || c == '\u{2028}' || c == '\u{2029}'
        || c == '\u{202f}' || c == '\u{205f}' || c == '\u{3000}'
}

/// ASCII whitespace as `char::is_ascii_whitespace` defines it.
pub open spec fn is_ascii_white_space(c: char) -> bool {
    c == ' ' || c == '\t' || c == '\n' || c == '\x0C' || c == '\r'
}

pub open spec fn separates(c: char, ascii: bool) -> bool {
    if ascii {
        is_ascii_white_space(c)
    } else {
        is_white_space(c)
    }
}

/// The words finished so far and the word in progress, after reading `s`.
pub open spec fn split_state(s: Seq<char>, ascii: bool) -> (Seq<Seq<char>>, Seq<char>)
    decreases s.len(),
{
    if s.len() == 0 {
        (seq![], seq![])
    } else {
        let (done, cur) = split_state(s.drop_last(), ascii);
        if separates(s.last(), ascii) {
            if cur.len() > 0 {
                (done.push(cur), seq![])
            } else {
                (done, cur)
            }
        } else {
            (done, cur.push(s.last()))
        }
    }
}

/// The maximal runs of non-whitespace characters of `s`, in order.
pub open spec fn words(s: Seq<char>, ascii: bool) -> Seq<Seq<char>> {
    let (done, cur) = split_state(s, ascii);
    if cur.len() > 0 {
        done.push(cur)
    } else {
        done
    }
}

pub proof fn lemma_split_state_nonempty(s: Seq<char>, ascii: bool)
    ensures
        forall|j: int| 0 <= j < split_state(s, ascii).0.len() ==> #[trigger] split_state(s, ascii).0[j].len() > 0,
    decreases s.len(),
{
    if s.len() > 0 {
        lemma_split_state_nonempty(s.drop_last(), ascii);
        let p = split_state(s.drop_last(), ascii);
        let q = split_state(s, ascii);
        assert forall|j: int| 0 <= j < q.0.len() implies #[trigger] q.0[j].len() > 0 by {
            if j < p.0.len() {
                assert(q.0[j] == p.0[j]);
            }
        }
    }
}

/// No word of a line is empty, so the builder's laws that ask for non-empty
/// tokens hold of every line split here.
pub proof fn lemma_words_nonempty(s: Seq<char>, ascii: bool)
    ensures
        forall|j: int| 0 <= j < words(s, ascii).len() ==> #[trigger] words(s, ascii)[j].len() > 0,
{
    lemma_split_state_nonempty(s, ascii);
}

/// Relies on String::push: appends one character.
#[verifier::external_body]
pub(crate) fn push_char(s: &mut String, c: char)
    ensures
        final(s)@ == old(s)@.push(c),
{
    s.push(c)
}

/// Relies on String::pop: removes and returns the last character, if any.
#[verifier::external_body]
pub(crate) fn pop_char(s: &mut String) -> (r: Option<char>)
    ensures
        old(s)@.len() == 0 ==> r.is_none() && final(s)@ == old(s)@,
        old(s)@.len() > 0 ==> r == Some(old(s)@.last()) && final(s)@ == old(s)@.drop_last(),
{
    s.pop()
}

fn char_separates(c: char, ascii: bool) -> (r: bool)
    ensures
        r == separates(c, ascii),
{
    if ascii {
        c == ' ' || c == '\t' || c == '\n' || c == '\x0C' || c == '\r'
    } else {
        ('\t' <= c && c <= '\r') || c == ' ' || c == '\u{85}' || c == '\u{a0}' || c == '\u{1680}'
            || ('\u{2000}' <= c && c <= '\u{200a}') || c == '\u{2028}' || c == '\u{2029}'
            || c == '\u{202f}' || c == '\u{205f}' || c == '\u{3000}'
    }
}

fn split_words(input: &str, ascii: bool) -> (r: Vec<String>)
    ensures
        r@.map_values(|w: String| w@) == words(input@, ascii),
{
    let n = input.unicode_len();
    let mut done: Vec<String> = Vec::new();
    let mut cur = String::new();
    let mut i: usize = 0;
    while i < n
        invariant
            n == input@.len(),
            i <= n,
            split_state(input@.take(i as int), ascii) == (done@.map_values(|w: String| w@), cur@),
        decreases n - i,
    {
        let c = input.get_char(i);
        assert(input@.take(i + 1).drop_last() =~= input@.take(i as int));
        assert(input@.take(i + 1).last() == c);
        if char_separates(c, ascii) {
            if !cur.as_str().is_empty() {
                let ghost d = done@;
                done.push(cur);
                assert(done@.map_values(|w: String| w@) =~= d.map_values(|w: String| w@).push(cur@));
                cur = String::new();
            }
        } else {
            push_char(&mut cur, c);
        }
        i = i + 1;
    }
    assert(input@.take(n as int) =~= input@);
    if !cur.as_str().is_empty() {
        let ghost d = done@;
        done.push(cur);
        assert(done@.map_values(|w: String| w@) =~= d.map_values(|w: String| w@).push(cur@));
    }
    done
}

/// Splits a line into its words at Unicode whitespace.
pub fn split_by_whitespace(input: &str) -> (r: Vec<String>)
    ensures
        r@.map_values(|w: String| w@) == words(input@, false),
{
    split_words(input, false)
}

/// Splits a line into its words at ASCII whitespace.
pub fn split_by_ascii_whitespace(input: &str) -> (r: Vec<String>)
    ensures
        r@.map_values(|w: String| w@) == words(input@, true),
{
    split_words(input, true)
}

/// Whether two strings hold the same characters.
pub fn same_text(a: &str, b: &str) -> (r: bool)
    ensures
        r == (a@ == b@),
{
    let n = a.unicode_len();
    if n != b.unicode_len() {
        return false;
    }
    let mut i: usize = 0;
    while i < n
        invariant
            n == a@.len(),
            n == b@.len(),
            i <= n,
            forall|j: int| 0 <= j < i ==> a@[j] == b@[j],
        decreases n - i,
    {
        if a.get_char(i) != b.get_char(i) {
            return false;
        }
        i = i + 1;
    }
    assert(a@ =~= b@);
    true
}

} // verus!
