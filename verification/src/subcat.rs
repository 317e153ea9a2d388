//! Subcategorisation frames of verbs, with the synset's lemmas put into the frame.

use vstd::prelude::*;
use crate::text::{chars_of, push_char, str_eq, string_from_chars};

verus! {

/// The sentence frame of a subcategorisation code, with `----` where the verb goes.
pub open spec fn frame_of(s: Seq<char>) -> Option<Seq<char>> {
    if s == "nonreferential"@ {
        Some("It is ----ing"@)
    } else if s == "nonreferential-sent"@ {
        Some("It ----s that CLAUSE"@)
    } else if s == "ditransitive"@ {
        Some("Somebody ----s somebody something"@)
    } else if s == "via"@ {
        Some("Somebody ----s"@)
    } else if s == "via-adj"@ {
        Some("Somebody ----s Adjective"@)
    } else if s == "via-at"@ {
        Some("Somebody ----s at something"@)
    } else if s == "via-for"@ {
        Some("Somebody ----s for something"@)
    } else if s == "via-ger"@ {
        Some("Somebody ----s VERB-ing"@)
    } else if s == "via-inf"@ {
        Some("Somebody ----s INFINITIVE"@)
    } else if s == "via-on-anim"@ {
        Some("Somebody ----s on somebody"@)
    } else if s == "via-on-inanim"@ {
        Some("Somebody ----s on something"@)
    } else if s == "via-out-of"@ {
        Some("Somebody ----s out of somebody"@)
    } else if s == "via-pp"@ {
        Some("Somebody ----s PP"@)
    } else if s == "via-that"@ {
        Some("Somebody ----s that CLAUSE"@)
    } else if s == "via-to"@ {
        Some("Somebody ----s to somebody"@)
    } else if s == "via-to-inf"@ {
        Some("Somebody ----s to INFINITIVE"@)
    } else if s == "via-whether-inf"@ {
        Some("Somebody ----s whether INFINITIVE"@)
    } else if s == "vibody"@ {
        Some("Somebody's (body part) ----s"@)
    } else if s == "vii"@ {
        Some("Something ----s"@)
    } else if s == "vii-adj"@ {
        Some("Something ----s Adjective/Noun"@)
    } else if s == "vii-inf"@ {
        Some("Something ----s INFINITIVE"@)
    } else if s == "vii-pp"@ {
        Some("Something is ----ing PP"@)
    } else if s == "vii-to"@ {
        Some("Something ----s to somebody"@)
    } else if s == "vtaa"@ {
        Some("Somebody ----s somebody"@)
    } else if s == "vtaa-inf"@ {
        Some("Somebody ----s somebody INFINITIVE"@)
    } else if s == "vtaa-into-ger"@ {
        Some("Somebody ----s somebody into V-ing something"@)
    } else if s == "vtaa-of"@ {
        Some("Somebody ----s somebody of something"@)
    } else if s == "vtaa-pp"@ {
        Some("Somebody ----s somebody PP"@)
    } else if s == "vtaa-to-inf"@ {
        Some("Somebody ----s somebody to INFINITIVE"@)
    } else if s == "vtaa-with"@ {
        Some("Somebody ----s somebody with something"@)
    } else if s == "vtai"@ {
        Some("Somebody ----s something"@)
    } else if s == "vtai-from"@ {
        Some("Somebody ----s something from somebody"@)
    } else if s == "vtai-on"@ {
        Some("Somebody ----s something on somebody"@)
    } else if s == "vtai-pp"@ {
        Some("Somebody ----s something PP"@)
    } else if s == "vtai-to"@ {
        Some("Somebody ----s something to somebody"@)
    } else if s == "vtai-with"@ {
        Some("Somebody ----s something with something"@)
    } else if s == "vtia"@ {
        Some("Something ----s somebody"@)
    } else if s == "vtii"@ {
        Some("Something ----s something"@)
    } else if s == "vtii-adj"@ {
        Some("Something ----s something Adjective/Noun"@)
    } else {
        None
    }
}

/// The sentence frame of a subcategorisation code.
pub fn frame_text(s: &str) -> (r: Option<&'static str>)
    ensures
        match frame_of(s@) {
            Some(f) => r matches Some(t) && t@ == f,
            None => r is None,
        },
{
    if str_eq(s, "nonreferential") {
        Some("It is ----ing")
    } else if str_eq(s, "nonreferential-sent") {
        Some("It ----s that CLAUSE")
    } else if str_eq(s, "ditransitive") {
        Some("Somebody ----s somebody something")
    } else if str_eq(s, "via") {
        Some("Somebody ----s")
    } else if str_eq(s, "via-adj") {
        Some("Somebody ----s Adjective")
    } else if str_eq(s, "via-at") {
        Some("Somebody ----s at something")
    } else if str_eq(s, "via-for") {
        Some("Somebody ----s for something")
    } else if str_eq(s, "via-ger") {
        Some("Somebody ----s VERB-ing")
    } else if str_eq(s, "via-inf") {
        Some("Somebody ----s INFINITIVE")
    } else if str_eq(s, "via-on-anim") {
        Some("Somebody ----s on somebody")
    } else if str_eq(s, "via-on-inanim") {
        Some("Somebody ----s on something")
    } else if str_eq(s, "via-out-of") {
        Some("Somebody ----s out of somebody")
    } else if str_eq(s, "via-pp") {
        Some("Somebody ----s PP")
    } else if str_eq(s, "via-that") {
        Some("Somebody ----s that CLAUSE")
    } else if str_eq(s, "via-to") {
        Some("Somebody ----s to somebody")
    } else if str_eq(s, "via-to-inf") {
        Some("Somebody ----s to INFINITIVE")
    } else if str_eq(s, "via-whether-inf") {
        Some("Somebody ----s whether INFINITIVE")
    } else if str_eq(s, "vibody") {
        Some("Somebody's (body part) ----s")
    } else if str_eq(s, "vii") {
        Some("Something ----s")
    } else if str_eq(s, "vii-adj") {
        Some("Something ----s Adjective/Noun")
    } else if str_eq(s, "vii-inf") {
        Some("Something ----s INFINITIVE")
    } else if str_eq(s, "vii-pp") {
        Some("Something is ----ing PP")
    } else if str_eq(s, "vii-to") {
        Some("Something ----s to somebody")
    } else if str_eq(s, "vtaa") {
        Some("Somebody ----s somebody")
    } else if str_eq(s, "vtaa-inf") {
        Some("Somebody ----s somebody INFINITIVE")
    } else if str_eq(s, "vtaa-into-ger") {
        Some("Somebody ----s somebody into V-ing something")
    } else if str_eq(s, "vtaa-of") {
        Some("Somebody ----s somebody of something")
    } else if str_eq(s, "vtaa-pp") {
        Some("Somebody ----s somebody PP")
    } else if str_eq(s, "vtaa-to-inf") {
        Some("Somebody ----s somebody to INFINITIVE")
    } else if str_eq(s, "vtaa-with") {
        Some("Somebody ----s somebody with something")
    } else if str_eq(s, "vtai") {
        Some("Somebody ----s something")
    } else if str_eq(s, "vtai-from") {
        Some("Somebody ----s something from somebody")
    } else if str_eq(s, "vtai-on") {
        Some("Somebody ----s something on somebody")
    } else if str_eq(s, "vtai-pp") {
        Some("Somebody ----s something PP")
    } else if str_eq(s, "vtai-to") {
        Some("Somebody ----s something to somebody")
    } else if str_eq(s, "vtai-with") {
        Some("Somebody ----s something with something")
    } else if str_eq(s, "vtia") {
        Some("Something ----s somebody")
    } else if str_eq(s, "vtii") {
        Some("Something ----s something")
    } else if str_eq(s, "vtii-adj") {
        Some("Something ----s something Adjective/Noun")
    } else {
        None
    }
}

/// `s` ends with the character `c`.
pub open spec fn ends_with_char(s: Seq<char>, c: char) -> bool {
    s.len() > 0 && s.last() == c
}

/// `s` ends with the two characters `a`, `b`.
pub open spec fn ends_with_pair(s: Seq<char>, a: char, b: char) -> bool {
    s.len() > 1 && s[s.len() - 2] == a && s.last() == b
}

/// The third person singular of a verb, e.g. `runs`, `tries`, `watches`.
pub open spec fn third_person(w: Seq<char>) -> Seq<char> {
    if ends_with_char(w, 's') {
        w + "es"@
    } else if ends_with_pair(w, 'a', 'y') || ends_with_pair(w, 'e', 'y') || ends_with_pair(w, 'i', 'y')
        || ends_with_pair(w, 'o', 'y') || ends_with_pair(w, 'u', 'y') {
        w + "s"@
    } else if ends_with_char(w, 'y') {
        w.drop_last() + "ies"@
    } else if ends_with_char(w, 'e') {
        w + "s"@
    } else if ends_with_char(w, 'o') {
        w + "es"@
    } else if ends_with_pair(w, 'c', 'h') || ends_with_pair(w, 's', 'h') || ends_with_char(w, 'x') {
        w + "es"@
    } else {
        w + "s"@
    }
}

/// The gerund of a verb, e.g. `running` from `run`, `making` from `make`.
pub open spec fn gerund(w: Seq<char>) -> Seq<char> {
    if ends_with_char(w, 'e') {
        w.drop_last() + "ing"@
    } else if ends_with_pair(w, 'i', 'e') {
        w.drop_last().drop_last() + "ying"@
    } else {
        w + "ing"@
    }
}

fn append_chars(s: &mut String, t: &str)
    ensures
        final(s)@ == old(s)@ + t@,
{
    s.append(t);
}

/// The characters of `w` but the last `k`.
fn prefix_string(cs: &Vec<char>, k: usize) -> (r: String)
    requires
        k <= cs@.len(),
    ensures
        r@ == cs@.subrange(0, cs@.len() - k),
{
    let mut r = String::new();
    let n = cs.len() - k;
    let mut i: usize = 0;
    while i < n
        invariant
            n == cs@.len() - k,
            i <= n,
            r@ == cs@.subrange(0, i as int),
        decreases n - i,
    {
        push_char(&mut r, cs[i]);
        assert(cs@.subrange(0, i + 1) =~= cs@.subrange(0, i as int).push(cs@[i as int]));
        i += 1;
    }
    r
}

/// The third person singular of a verb.
pub fn third_person_form(word: &str) -> (r: String)
    ensures
        r@ == third_person(word@),
{
    proof {
        reveal_strlit("es");
        reveal_strlit("s");
        reveal_strlit("ies");
    }
    let cs = chars_of(word);
    let n = cs.len();
    let last = if n > 0 { cs[n - 1] } else { ' ' };
    let before = if n > 1 { cs[n - 2] } else { ' ' };
    let mut r = word.to_owned();
    if n > 0 && last == 's' {
        append_chars(&mut r, "es");
    } else if n > 1 && last == 'y' && (before == 'a' || before == 'e' || before == 'i' || before == 'o' || before == 'u') {
        append_chars(&mut r, "s");
    } else if n > 0 && last == 'y' {
        r = prefix_string(&cs, 1);
        assert(r@ == word@.drop_last());
        append_chars(&mut r, "ies");
    } else if n > 0 && last == 'e' {
        append_chars(&mut r, "s");
    } else if n > 0 && last == 'o' {
        append_chars(&mut r, "es");
    } else if (n > 1 && last == 'h' && (before == 'c' || before == 's')) || (n > 0 && last == 'x') {
        append_chars(&mut r, "es");
    } else {
        append_chars(&mut r, "s");
    }
    r
}

/// The gerund of a verb.
pub fn gerund_form(word: &str) -> (r: String)
    ensures
        r@ == gerund(word@),
{
    let cs = chars_of(word);
    let n = cs.len();
    if n > 0 && cs[n - 1] == 'e' {
        let mut r = prefix_string(&cs, 1);
        assert(r@ == word@.drop_last());
        append_chars(&mut r, "ing");
        r
    } else if n > 1 && cs[n - 2] == 'i' && cs[n - 1] == 'e' {
        let mut r = prefix_string(&cs, 2);
        assert(r@ == word@.drop_last().drop_last());
        append_chars(&mut r, "ying");
        r
    } else {
        let mut r = word.to_owned();
        append_chars(&mut r, "ing");
        r
    }
}


// ---------------------------------------------------------------------------------------------
// Putting the lemmas into a frame.
// ---------------------------------------------------------------------------------------------

/// `pat` occurs in `s` starting at position `i`.
pub open spec fn occurs_at(s: Seq<char>, pat: Seq<char>, i: int) -> bool {
    0 <= i && i + pat.len() <= s.len() && s.subrange(i, i + pat.len()) == pat
}

/// `pat` occurs somewhere in `s`.
pub open spec fn occurs_in(s: Seq<char>, pat: Seq<char>) -> bool {
    exists|i: int| occurs_at(s, pat, i)
}

/// `s` with every occurrence of the non-empty `pat` replaced by `rep`, scanning from the left
/// as `str::replace` does.
pub open spec fn replace_all(s: Seq<char>, pat: Seq<char>, rep: Seq<char>) -> Seq<char>
    decreases s.len(),
{
    if s.len() == 0 {
        seq![]
    } else if pat.len() > 0 && occurs_at(s, pat, 0) {
        rep + replace_all(s.skip(pat.len() as int), pat, rep)
    } else {
        seq![s[0]] + replace_all(s.skip(1), pat, rep)
    }
}

fn occurs_at_exec(cs: &Vec<char>, pat: &Vec<char>, i: usize) -> (r: bool)
    requires
        i <= cs@.len(),
    ensures
        r == occurs_at(cs@, pat@, i as int),
{
    if pat.len() > cs.len() - i {
        return false;
    }
    let mut k: usize = 0;
    while k < pat.len()
        invariant
            i + pat@.len() <= cs@.len(),
            i + pat.len() <= cs.len(),
            k <= pat.len(),
            forall|j: int| 0 <= j < k ==> cs@[i + j] == pat@[j],
        decreases pat.len() - k,
    {
        if cs[i + k] != pat[k] {
            assert(cs@.subrange(i as int, i + pat@.len())[k as int] != pat@[k as int]);
            return false;
        }
        k += 1;
    }
    assert(cs@.subrange(i as int, i + pat@.len()) =~= pat@);
    true
}

/// Whether `pat` occurs in `s`.
pub fn contains_str(s: &str, pat: &str) -> (r: bool)
    ensures
        r == occurs_in(s@, pat@),
{
    let cs = chars_of(s);
    let ps = chars_of(pat);
    if ps.len() > cs.len() {
        assert forall|j: int| !occurs_at(s@, pat@, j) by {}
        return false;
    }
    let last = cs.len() - ps.len();
    let mut i: usize = 0;
    loop
        invariant
            cs@ == s@,
            ps@ == pat@,
            last == cs@.len() - ps@.len(),
            i <= last,
            forall|j: int| 0 <= j < i ==> !occurs_at(s@, pat@, j),
        decreases last - i,
    {
        if occurs_at_exec(&cs, &ps, i) {
            return true;
        }
        if i == last {
            assert forall|j: int| !occurs_at(s@, pat@, j) by {
                if 0 <= j <= i {
                }
            }
            return false;
        }
        i += 1;
    }
}

/// `rep` before, between and after the characters of `s`: what `str::replace` gives for an
/// empty pattern.
pub open spec fn around_each(s: Seq<char>, rep: Seq<char>) -> Seq<char>
    decreases s.len(),
{
    if s.len() == 0 {
        rep
    } else {
        rep + seq![s[0]] + around_each(s.skip(1), rep)
    }
}

/// `s` with `pat` replaced by `rep` as `str::replace` does it: every occurrence from the left
/// for a non-empty `pat`, and `rep` around each character for an empty one.
pub open spec fn str_replace(s: Seq<char>, pat: Seq<char>, rep: Seq<char>) -> Seq<char> {
    if pat.len() == 0 {
        around_each(s, rep)
    } else {
        replace_all(s, pat, rep)
    }
}

fn surround_each(s: &str, rep: &str) -> (r: String)
    ensures
        r@ == around_each(s@, rep@),
{
    let cs = chars_of(s);
    let mut out = String::new();
    let mut i: usize = 0;
    assert(cs@.skip(0) =~= cs@);
    while i < cs.len()
        invariant
            cs@ == s@,
            i <= cs.len(),
            out@ + around_each(cs@.skip(i as int), rep@) == around_each(s@, rep@),
        decreases cs.len() - i,
    {
        proof {
            let rest = cs@.skip(i as int);
            assert(rest.skip(1) =~= cs@.skip(i + 1));
            assert(rest[0] == cs@[i as int]);
            assert(out@ + rep@ + seq![cs@[i as int]] + around_each(cs@.skip(i + 1), rep@) =~= out@ + around_each(rest, rep@));
        }
        out.append(rep);
        push_char(&mut out, cs[i]);
        i += 1;
    }
    assert(around_each(cs@.skip(i as int), rep@) == rep@) by {
        assert(cs@.skip(i as int).len() == 0);
    }
    out.append(rep);
    out
}

/// Replaces `pat` in `s` by `rep`, as `str::replace` does.
pub fn replace_str(s: &str, pat: &str, rep: &str) -> (r: String)
    ensures
        r@ == str_replace(s@, pat@, rep@),
{
    if pat.unicode_len() == 0 {
        return surround_each(s, rep);
    }
    let cs = chars_of(s);
    let ps = chars_of(pat);
    let mut out = String::new();
    let mut i: usize = 0;
    assert(cs@.skip(0) =~= cs@);
    while i < cs.len()
        invariant
            cs@ == s@,
            ps@ == pat@,
            pat@.len() > 0,
            i <= cs.len(),
            out@ + replace_all(cs@.skip(i as int), pat@, rep@) == replace_all(s@, pat@, rep@),
        decreases cs.len() - i,
    {
        let ghost rest = cs@.skip(i as int);
        if occurs_at_exec(&cs, &ps, i) {
            proof {
                assert(rest.subrange(0, pat@.len() as int) =~= cs@.subrange(i as int, i + pat@.len()));
                assert(rest.skip(pat@.len() as int) =~= cs@.skip(i + pat@.len()));
            }
            out.append(rep);
            i += ps.len();
        } else {
            proof {
                assert(!occurs_at(rest, pat@, 0)) by {
                    if pat@.len() <= rest.len() {
                        assert(rest.subrange(0, pat@.len() as int) =~= cs@.subrange(i as int, i + pat@.len()));
                    }
                };
                assert(rest.skip(1) =~= cs@.skip(i + 1));
            }
            push_char(&mut out, cs[i]);
            i += 1;
        }
    }
    assert(cs@.skip(i as int) =~= Seq::<char>::empty());
    out
}

/// The position of the first `c` in `s`.
pub open spec fn first_index_of(s: Seq<char>, c: char) -> Option<int>
    decreases s.len(),
{
    if s.len() == 0 {
        None
    } else if s[0] == c {
        Some(0)
    } else {
        match first_index_of(s.drop_first(), c) {
            Some(k) => Some(k + 1),
            None => None,
        }
    }
}

/// A member lemma inflected in its first word: `kind` 0 gives the third person singular, any
/// other the gerund.
pub open spec fn inflect_lemma(m: Seq<char>, kind: int) -> Seq<char> {
    match first_index_of(m, ' ') {
        Some(k) => (if kind == 0 {
            third_person(m.take(k))
        } else {
            gerund(m.take(k))
        }) + seq![' '] + m.skip(k + 1),
        None => if kind == 0 {
            third_person(m)
        } else {
            gerund(m)
        },
    }
}

/// Texts joined with `/`.
pub open spec fn join_slash(ts: Seq<Seq<char>>) -> Seq<char>
    decreases ts.len(),
{
    if ts.len() == 0 {
        seq![]
    } else if ts.len() == 1 {
        ts[0]
    } else {
        join_slash(ts.drop_last()) + seq!['/'] + ts.last()
    }
}

/// A frame with its verb slot filled by the lemmas of a synset: inflected in the third person
/// where the frame reads `----s`, as gerunds where it reads `----ing`, and as they are
/// otherwise. A code without a known frame is used as its own frame.
pub open spec fn subcat_sentence(subcat: Seq<char>, members: Seq<String>) -> Seq<char> {
    let frame = match frame_of(subcat) {
        Some(f) => f,
        None => subcat,
    };
    if occurs_in(frame, "----s"@) {
        replace_all(frame, "----s"@, join_slash(members.map_values(|m: String| inflect_lemma(m@, 0))))
    } else if occurs_in(frame, "----ing"@) {
        replace_all(frame, "----ing"@, join_slash(members.map_values(|m: String| inflect_lemma(m@, 1))))
    } else {
        replace_all(frame, "----"@, join_slash(members.map_values(|m: String| m@)))
    }
}

fn first_space(cs: &Vec<char>) -> (r: Option<usize>)
    ensures
        match first_index_of(cs@, ' ') {
            Some(k) => r == Some(k as usize) && 0 <= k < cs@.len(),
            None => r is None,
        },
{
    let mut i: usize = 0;
    assert(cs@.skip(0) =~= cs@);
    while i < cs.len()
        invariant
            i <= cs.len(),
            forall|j: int| 0 <= j < i ==> cs@[j] != ' ',
            first_index_of(cs@, ' ') == match first_index_of(cs@.skip(i as int), ' ') {
                Some(k) => Some(k + i),
                None => None,
            },
        decreases cs.len() - i,
    {
        assert(cs@.skip(i as int).drop_first() =~= cs@.skip(i + 1));
        if cs[i] == ' ' {
            return Some(i);
        }
        i += 1;
    }
    None
}

fn inflect(member: &String, kind: u8) -> (r: String)
    ensures
        r@ == inflect_lemma(member@, kind as int),
{
    let cs = chars_of(member.as_str());
    match first_space(&cs) {
        Some(k) => {
            let head = prefix_string(&cs, cs.len() - k);
            assert(head@ == member@.take(k as int));
            let mut r = if kind == 0 {
                third_person_form(head.as_str())
            } else {
                gerund_form(head.as_str())
            };
            push_char(&mut r, ' ');
            let tail = string_from_chars(&cs, k + 1);
            r.append(tail.as_str());
            r
        },
        None => if kind == 0 {
            third_person_form(member.as_str())
        } else {
            gerund_form(member.as_str())
        },
    }
}

/// Puts the lemmas of a synset into the sentence frame of a subcategorisation code, e.g.
/// `Somebody runs/walks something` for `vtai` with the members `run` and `walk`.
pub fn replace_subcat(subcat: &str, members: &Vec<String>) -> (r: String)
    ensures
        r@ == subcat_sentence(subcat@, members@),
{
    proof {
        reveal_strlit("----s");
        reveal_strlit("----ing");
        reveal_strlit("----");
    }
    let frame: &str = match frame_text(subcat) {
        Some(f) => f,
        None => subcat,
    };
    let kind: u8 = if contains_str(frame, "----s") {
        0
    } else if contains_str(frame, "----ing") {
        1
    } else {
        2
    };
    let ghost view_fn = if kind == 0 {
        |m: String| inflect_lemma(m@, 0)
    } else if kind == 1 {
        |m: String| inflect_lemma(m@, 1)
    } else {
        |m: String| m@
    };
    let mut joined = String::new();
    let mut i: usize = 0;
    while i < members.len()
        invariant
            i <= members@.len(),
            kind <= 2,
            view_fn == (if kind == 0 {
                |m: String| inflect_lemma(m@, 0)
            } else if kind == 1 {
                |m: String| inflect_lemma(m@, 1)
            } else {
                |m: String| m@
            }),
            joined@ == join_slash(members@.take(i as int).map_values(view_fn)),
        decreases members@.len() - i,
    {
        let piece = if kind == 2 {
            members[i].clone()
        } else {
            inflect(&members[i], kind)
        };
        if i > 0 {
            push_char(&mut joined, '/');
        }
        joined.append(piece.as_str());
        proof {
            let a = members@.take(i + 1).map_values(view_fn);
            let b = members@.take(i as int).map_values(view_fn);
            assert(a.drop_last() =~= b);
            assert(a.last() == piece@);
            if i == 0 {
                assert(joined@ =~= join_slash(a));
            } else {
                assert(joined@ =~= join_slash(b) + seq!['/'] + a.last());
            }
        }
        i += 1;
    }
    assert(members@.take(members@.len() as int) =~= members@);
    if kind == 0 {
        replace_str(frame, "----s", joined.as_str())
    } else if kind == 1 {
        replace_str(frame, "----ing", joined.as_str())
    } else {
        replace_str(frame, "----", joined.as_str())
    }
}


/// Whether `c` is one of the vowels `a e i o u`.
pub open spec fn is_vowel(c: char) -> bool {
    c == 'a' || c == 'e' || c == 'i' || c == 'o' || c == 'u'
}

/// Law of the third person singular, by the verb's ending (`n` is its length):
/// - one ending in `s`, `x`, `o`, `ch` or `sh` takes `es` (`passes`, `fixes`, `goes`,
///   `watches`, `washes`);
/// - one ending in a vowel and `y` takes `s` (`plays`); any other ending in `y` turns it into
///   `ies` (`tries`);
/// - any other verb, the empty one and those ending in `e` included, takes `s` (`makes`, `runs`).
pub proof fn law_third_person_endings(w: Seq<char>)
    ensures
        ({
            let n = w.len() as int;
            &&& n >= 1 && (w[n - 1] == 's' || w[n - 1] == 'x' || w[n - 1] == 'o') ==> third_person(w) == w + seq!['e', 's']
            &&& n >= 2 && w[n - 1] == 'h' && (w[n - 2] == 'c' || w[n - 2] == 's') ==> third_person(w) == w + seq!['e', 's']
            &&& n >= 2 && w[n - 1] == 'y' && is_vowel(w[n - 2]) ==> third_person(w) == w + seq!['s']
            &&& n >= 1 && w[n - 1] == 'y' && (n == 1 || !is_vowel(w[n - 2]))
                ==> third_person(w) == w.subrange(0, n - 1) + seq!['i', 'e', 's']
            &&& (n == 0 || (w[n - 1] != 's' && w[n - 1] != 'x' && w[n - 1] != 'o' && w[n - 1] != 'y'
                && !(n >= 2 && w[n - 1] == 'h' && (w[n - 2] == 'c' || w[n - 2] == 's'))))
                ==> third_person(w) == w + seq!['s']
        }),
{
    reveal_strlit("es");
    reveal_strlit("s");
    reveal_strlit("ies");
    assert("es"@ =~= seq!['e', 's']);
    assert("s"@ =~= seq!['s']);
    assert("ies"@ =~= seq!['i', 'e', 's']);
    if w.len() > 0 {
        assert(w.drop_last() =~= w.subrange(0, w.len() - 1));
    }
}

} // verus!
