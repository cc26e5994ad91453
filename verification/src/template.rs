//! Placeholders in a template body: where they stand, what they are called,
//! and the text that results when each is replaced.

use vstd::prelude::*;
use crate::search::{first_at, lemma_first_at};

verus! {

/// The pattern of a placeholder: `{{`, a name of one or more letters, digits
/// and underscores, `}}`.
const PLACEHOLDER: &'static str = r"\{\{([_0-9a-zA-Z]+)\}\}";

/// Whether `c` may stand in a placeholder's name.
pub open spec fn is_name_char(c: char) -> bool {
    ('a' <= c <= 'z') || ('A' <= c <= 'Z') || ('0' <= c <= '9') || c == '_'
}

/// The condition of ending a name: of being no name character.
pub open spec fn ends_name() -> spec_fn(char) -> bool {
    |c: char| !is_name_char(c)
}

/// The number of name characters at the start of `s`, up to the first
/// character that is none.
pub open spec fn name_run(s: Seq<char>) -> int {
    first_at(s, ends_name())
}

/// Whether `s` begins with a placeholder: `{{`, then a name, which is as
/// many name characters as follow and at least one, then `}}`.
pub open spec fn opens_placeholder(s: Seq<char>) -> bool {
    &&& s.len() >= 5
    &&& s[0] == '{'
    &&& s[1] == '{'
    &&& 1 <= name_run(s.skip(2)) <= s.len() - 4
    &&& s[2 + name_run(s.skip(2))] == '}'
    &&& s[3 + name_run(s.skip(2))] == '}'
}

/// The condition on a position of `s` that a placeholder begins there.
pub open spec fn begins_placeholder(s: Seq<char>) -> spec_fn(int) -> bool {
    |i: int| opens_placeholder(s.skip(i))
}

/// The position at which the leftmost placeholder of `s` begins, or
/// `s.len()` where `s` holds none.
pub open spec fn first_placeholder(s: Seq<char>) -> int {
    first_at(Seq::new(s.len(), |i: int| i), begins_placeholder(s))
}

/// The position just after the leftmost placeholder of `s`, where it holds
/// one.
pub open spec fn after_first_placeholder(s: Seq<char>) -> int {
    first_placeholder(s) + name_run(s.skip(first_placeholder(s) + 2)) + 4
}

/// The leftmost placeholder lies within `s`, and is not empty.
pub proof fn lemma_first_placeholder(s: Seq<char>)
    ensures
        0 <= first_placeholder(s) <= s.len(),
        first_placeholder(s) < s.len() ==> opens_placeholder(s.skip(first_placeholder(s)))
            && first_placeholder(s) + 5 <= after_first_placeholder(s) <= s.len(),
{
    let places = Seq::new(s.len(), |i: int| i);
    lemma_first_at(places, begins_placeholder(s));
    let b = first_placeholder(s);
    if b < s.len() {
        assert(places[b] == b);
        assert(s.skip(b).skip(2) =~= s.skip(b + 2));
    }
}

/// The names of the placeholders of `s`, from left to right. Placeholders
/// are found one after the other, each the leftmost that begins at or after
/// the end of the one before, so that no two overlap.
pub open spec fn names_of(s: Seq<char>) -> Seq<Seq<char>>
    decreases s.len(),
    via names_of_decreases
{
    let b = first_placeholder(s);
    let e = after_first_placeholder(s);
    if b < s.len() {
        seq![s.subrange(b + 2, e - 2)] + names_of(s.skip(e))
    } else {
        Seq::empty()
    }
}

#[via_fn]
proof fn names_of_decreases(s: Seq<char>) {
    lemma_first_placeholder(s);
}

/// The text of `s` outside its placeholders, from left to right: what
/// stands before the first placeholder, between each two, and after the last.
/// There is one part more than there are placeholders, and a part is empty
/// where nothing stands between.
pub open spec fn parts_of(s: Seq<char>) -> Seq<Seq<char>>
    decreases s.len(),
    via parts_of_decreases
{
    let b = first_placeholder(s);
    let e = after_first_placeholder(s);
    if b < s.len() {
        seq![s.take(b)] + parts_of(s.skip(e))
    } else {
        seq![s]
    }
}

#[via_fn]
proof fn parts_of_decreases(s: Seq<char>) {
    lemma_first_placeholder(s);
}

/// There is one part more than there are placeholders.
pub proof fn lemma_parts_and_names(s: Seq<char>)
    ensures
        parts_of(s).len() == names_of(s).len() + 1,
    decreases s.len(),
{
    lemma_first_placeholder(s);
    if first_placeholder(s) < s.len() {
        lemma_parts_and_names(s.skip(after_first_placeholder(s)));
    }
}

/// The first `k + 1` parts with the first `k` substitutes between them.
pub open spec fn spliced(parts: Seq<Seq<char>>, subs: Seq<Seq<char>>, k: nat) -> Seq<char>
    decreases k,
{
    if k == 0 {
        parts[0]
    } else {
        spliced(parts, subs, (k - 1) as nat) + subs[k - 1] + parts[k as int]
    }
}

/// The text of the body `s` with its placeholders replaced, the one at
/// position `i` from the left by `subs[i]`.
pub open spec fn substituted(s: Seq<char>, subs: Seq<Seq<char>>) -> Seq<char> {
    spliced(parts_of(s), subs, names_of(s).len())
}

/// Substitutes beyond the first `k` do not show in the first `k + 1` parts.
pub proof fn lemma_spliced_prefix(parts: Seq<Seq<char>>, a: Seq<Seq<char>>, b: Seq<Seq<char>>, k: nat)
    requires
        k <= a.len(),
        k <= b.len(),
        forall|i: int| 0 <= i < k ==> a[i] == b[i],
    ensures
        spliced(parts, a, k) == spliced(parts, b, k),
    decreases k,
{
    if k > 0 {
        lemma_spliced_prefix(parts, a, b, (k - 1) as nat);
    }
}

/// Splicing after a first part and a first substitute is splicing the rest
/// and putting the two in front.
pub proof fn lemma_spliced_after(
    part: Seq<char>,
    sub: Seq<char>,
    parts: Seq<Seq<char>>,
    subs: Seq<Seq<char>>,
    k: nat,
)
    requires
        k <= subs.len(),
        k < parts.len(),
    ensures
        spliced(seq![part] + parts, seq![sub] + subs, k + 1) == part + sub + spliced(parts, subs, k),
    decreases k,
{
    let all_parts = seq![part] + parts;
    let all_subs = seq![sub] + subs;
    assert(all_parts[k as int + 1] == parts[k as int]);
    if k == 0 {
        assert(spliced(all_parts, all_subs, 0) == part);
        assert(part + sub + parts[0] =~= part + sub + spliced(parts, subs, 0));
    } else {
        lemma_spliced_after(part, sub, parts, subs, (k - 1) as nat);
        assert(all_subs[k as int] == subs[k - 1]);
        assert(part + sub + spliced(parts, subs, (k - 1) as nat) + subs[k - 1] + parts[k as int] =~= part + sub + (
        spliced(parts, subs, (k - 1) as nat) + subs[k - 1] + parts[k as int]));
    }
}

/// The text of a placeholder called `name`.
pub open spec fn placeholder(name: Seq<char>) -> Seq<char> {
    seq!['{', '{'] + name + seq!['}', '}']
}

/// The placeholders called `names`, in order.
pub open spec fn placeholders(names: Seq<Seq<char>>) -> Seq<Seq<char>> {
    Seq::new(names.len(), |i: int| placeholder(names[i]))
}

/// The parts and the placeholders of a body make up the body: replacing
/// each placeholder by itself gives the body back.
pub proof fn lemma_substituted_by_itself(s: Seq<char>)
    ensures
        substituted(s, placeholders(names_of(s))) == s,
    decreases s.len(),
{
    lemma_first_placeholder(s);
    let b = first_placeholder(s);
    let e = after_first_placeholder(s);
    if b < s.len() {
        let later = s.skip(e);
        let name = s.subrange(b + 2, e - 2);
        lemma_substituted_by_itself(later);
        lemma_parts_and_names(later);
        let subs = placeholders(names_of(later));
        assert(placeholders(names_of(s)) =~= seq![placeholder(name)] + subs);
        lemma_spliced_after(s.take(b), placeholder(name), parts_of(later), subs, names_of(later).len());
        assert(s.skip(b).skip(2) =~= s.skip(b + 2));
        assert(s.skip(b)[0] == s[b] && s.skip(b)[1] == s[b + 1]);
        assert(s.skip(b)[e - b - 2] == s[e - 2] && s.skip(b)[e - b - 1] == s[e - 1]);
        assert(s.take(b) + placeholder(name) + later =~= s);
    }
}

/// A body without placeholders is rendered as it is, whatever the
/// substitutes.
pub proof fn lemma_substituted_plain(s: Seq<char>, subs: Seq<Seq<char>>)
    requires
        names_of(s).len() == 0,
    ensures
        substituted(s, subs) == s,
{
    lemma_first_placeholder(s);
}

/// The text of `body` outside its placeholders, from left to right.
///
/// Compiles the placeholder pattern with `regex::Regex::new`, which accepts
/// it, and calls `regex::Regex::split` with it, which yields
/// the substrings of the haystack that the successive non-overlapping
/// matches of the pattern delimit, the empty ones too. The contract claims
/// that these are `parts_of`: that a match of the pattern is a placeholder
/// as `opens_placeholder` describes it, and that each search finds the
/// leftmost match at or after the end of the one before.
#[verifier::external_body]
pub(crate) fn literal_parts(body: &str) -> (parts: Vec<String>)
    ensures
        parts.deep_view() == parts_of(body@),
{
    let pattern = regex::Regex::new(PLACEHOLDER).unwrap();
    pattern.split(body).map(|part| part.to_owned()).collect()
}

/// The names of the placeholders of `body`, from left to right.
///
/// Compiles the placeholder pattern with `regex::Regex::new`, which accepts
/// it, and calls `regex::Regex::captures_iter` with it, which
/// yields the successive non-overlapping matches of the pattern, and takes
/// from each the text of the pattern's one group. The contract claims that
/// these are `names_of`, on the same reading of the pattern as for
/// `literal_parts`.
#[verifier::external_body]
pub(crate) fn placeholder_names(body: &str) -> (names: Vec<String>)
    ensures
        names.deep_view() == names_of(body@),
{
    let pattern = regex::Regex::new(PLACEHOLDER).unwrap();
    pattern.captures_iter(body).map(|found| found[1].to_owned()).collect()
}

} // verus!
