use vstd::prelude::*;
use crate::similarity::{is_token_set, token_set, tokens_view};

verus! {

/// Character class of the punctuation that is blanked before splitting into words.
pub const PUNCTUATION_CLASS: &'static str = "['`’.,?!:;]";

/// The characters that `PUNCTUATION_CLASS` matches.
pub open spec fn is_punctuation(c: char) -> bool {
    c == '\'' || c == '`' || c == '\u{2019}' || c == '.' || c == ',' || c == '?'
        || c == '!' || c == ':' || c == ';'
}

/// The text with each punctuation character replaced by a space.
pub open spec fn blanked(s: Seq<char>) -> Seq<char> {
    s.map_values(|c: char| if is_punctuation(c) { ' ' } else { c })
}

/// Characters with the Unicode `White_Space` property.
pub open spec fn is_white_space_spec(c: char) -> bool {
    ('\u{9}' <= c && c <= '\u{d}') || c == ' ' || c == '\u{85}' || c == '\u{a0}' || c
        == '\u{1680}' || ('\u{2000}' <= c && c <= '\u{200a}') || c == '\u{2028}' || c
        == '\u{2029}' || c == '\u{202f}' || c == '\u{205f}' || c == '\u{3000}'
}

/// The word in progress, if any, as a sequence of zero or one words.
pub open spec fn pending(cur: Seq<char>) -> Seq<Seq<char>> {
    if cur.len() > 0 {
        seq![cur]
    } else {
        Seq::empty()
    }
}

/// The maximal runs of non-white-space characters of `s`, in order, the first one
/// extending the word in progress `cur`.
pub open spec fn words_from(s: Seq<char>, cur: Seq<char>) -> Seq<Seq<char>>
    decreases s.len(),
{
    if s.len() == 0 {
        pending(cur)
    } else if is_white_space_spec(s[0]) {
        pending(cur) + words_from(s.drop_first(), Seq::empty())
    } else {
        words_from(s.drop_first(), cur.push(s[0]))
    }
}

/// The set of words of a text once its punctuation is blanked.
pub open spec fn tokens_of(s: Seq<char>) -> Set<Seq<char>> {
    words_from(blanked(s), Seq::empty()).to_set()
}

/// Relies on regex's `Regex::new` and `Regex::replace_all`: the character class
/// `PUNCTUATION_CLASS` matches one punctuation character at a time, and every match
/// is replaced by a space, the other characters kept in order.
#[verifier::external_body]
fn blank_matches(pattern: &str, s: &str) -> (r: Vec<char>)
    requires
        pattern@ == PUNCTUATION_CLASS@,
    ensures
        r@ == blanked(s@),
{
    let re = regex::Regex::new(pattern).unwrap();
    re.replace_all(s, " ").chars().collect()
}

/// Relies on `FromIterator<char>` for `String`: the characters in order.
#[verifier::external_body]
pub(crate) fn chars_to_string(v: &Vec<char>) -> (r: String)
    ensures
        r@ == v@,
{
    v.iter().collect()
}

/// Whether `c` has the Unicode `White_Space` property.
pub fn is_white_space(c: char) -> (r: bool)
    ensures
        r == is_white_space_spec(c),
{
    ('\u{9}' <= c && c <= '\u{d}') || c == ' ' || c == '\u{85}' || c == '\u{a0}' || c
        == '\u{1680}' || ('\u{2000}' <= c && c <= '\u{200a}') || c == '\u{2028}' || c
        == '\u{2029}' || c == '\u{202f}' || c == '\u{205f}' || c == '\u{3000}'
}

/// Adds a word to a token set unless it is already there.
pub fn insert_token(set: &mut Vec<String>, t: String)
    requires
        is_token_set(old(set)@),
    ensures
        is_token_set(final(set)@),
        token_set(final(set)@) == token_set(old(set)@).insert(t@),
{
    broadcast use vstd::seq_lib::group_seq_properties;

    let mut k: usize = 0;
    let mut found = false;
    while k < set.len()
        invariant
            0 <= k <= set@.len(),
            found == tokens_view(set@).take(k as int).contains(t@),
        decreases set@.len() - k,
    {
        let eq = set[k] == t;
        proof {
            let tv = tokens_view(set@);
            assert(tv[k as int] == set@[k as int]@);
            assert(tv.take(k as int + 1) =~= tv.take(k as int).push(tv[k as int]));
            if eq {
                assert(tv.take(k as int + 1)[k as int] == t@);
            } else if tv.take(k as int + 1).contains(t@) {
                let m = choose|m: int| 0 <= m < k + 1 && #[trigger] tv.take(k as int + 1)[m] == t@;
                assert(tv.take(k as int)[m] == t@);
            }
        }
        if eq {
            found = true;
        }
        k += 1;
    }
    let ghost before = set@;
    assert(tokens_view(before).take(before.len() as int) =~= tokens_view(before));
    if found {
        assert(token_set(set@) =~= token_set(before).insert(t@));
    } else {
        let ghost tw = t@;
        set.push(t);
        proof {
            assert(tokens_view(set@) =~= tokens_view(before).push(tw));
            tokens_view(before).lemma_push_to_set_commute(tw);
            let tv = tokens_view(set@);
            assert forall|p: int, q: int| 0 <= p < tv.len() && 0 <= q < tv.len() && p != q
                implies tv[p] != tv[q] by {
                if q == before.len() {
                    assert(tokens_view(before)[p] == tv[p]);
                } else if p == before.len() {
                    assert(tokens_view(before)[q] == tv[q]);
                } else {
                    assert(tokens_view(before)[p] == tv[p]);
                    assert(tokens_view(before)[q] == tv[q]);
                }
            }
        }
    }
}

/// The set of words of a text: punctuation is blanked, the rest is split at white space.
pub fn get_stripped_string(s1: &str) -> (r: Vec<String>)
    ensures
        is_token_set(r@),
        token_set(r@) == tokens_of(s1@),
{
    let chars = blank_matches(PUNCTUATION_CLASS, s1);
    let mut set: Vec<String> = Vec::new();
    let mut cur: Vec<char> = Vec::new();
    let ghost mut done: Seq<Seq<char>> = Seq::empty();
    let mut i: usize = 0;
    assert(chars@.skip(0) =~= chars@);
    assert(token_set(set@) =~= done.to_set());
    while i < chars.len()
        invariant
            0 <= i <= chars@.len(),
            words_from(chars@, Seq::empty()) == done + words_from(chars@.skip(i as int), cur@),
            is_token_set(set@),
            token_set(set@) == done.to_set(),
        decreases chars@.len() - i,
    {
        let c = chars[i];
        let ghost rest = chars@.skip(i as int);
        assert(rest.drop_first() =~= chars@.skip(i as int + 1));
        assert(rest[0] == c);
        if is_white_space(c) {
            if cur.len() > 0 {
                let word = chars_to_string(&cur);
                insert_token(&mut set, word);
                proof {
                    done.lemma_push_to_set_commute(cur@);
                    assert(done + words_from(rest, cur@) =~= done.push(cur@) + words_from(
                        chars@.skip(i as int + 1),
                        Seq::empty(),
                    ));
                    done = done.push(cur@);
                }
                cur = Vec::new();
            } else {
                assert(done + words_from(rest, cur@) =~= done + words_from(
                    chars@.skip(i as int + 1),
                    Seq::empty(),
                ));
                assert(cur@ =~= Seq::<char>::empty());
            }
        } else {
            cur.push(c);
        }
        i += 1;
    }
    assert(chars@.skip(i as int) =~= Seq::<char>::empty());
    if cur.len() > 0 {
        let word = chars_to_string(&cur);
        insert_token(&mut set, word);
        proof {
            done.lemma_push_to_set_commute(cur@);
            assert(done + words_from(chars@.skip(i as int), cur@) =~= done.push(cur@));
            done = done.push(cur@);
        }
    } else {
        assert(done + words_from(chars@.skip(i as int), cur@) =~= done);
    }
    set
}

} // verus!
