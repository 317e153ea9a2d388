//! Character-level helpers shared by the rest of the library.

use vstd::prelude::*;

verus! {

/// The characters of `s`, in order.
pub fn chars_of(s: &str) -> (v: Vec<char>)
    ensures
        v@ == s@,
{
    let mut v: Vec<char> = Vec::new();
    for c in it: s.chars()
        invariant
            v@ == it.seq().take(it.index() as int),
            it.seq() == s@,
    {
        v.push(c);
    }
    v
}

/// Whether two strings hold the same characters.
pub fn str_eq(a: &str, b: &str) -> (r: bool)
    ensures
        r == (a@ == b@),
{
    a.to_owned() == b.to_owned()
}

/// The decimal value of a sequence of ASCII digit bytes.
pub open spec fn decimal_value(d: Seq<u8>) -> nat
    decreases d.len(),
{
    if d.len() == 0 {
        0
    } else {
        decimal_value(d.drop_last()) * 10 + (d.last() - 48) as nat
    }
}

/// Every byte is an ASCII digit.
pub open spec fn all_ascii_digits(d: Seq<u8>) -> bool {
    forall|i: int| 0 <= i < d.len() ==> 48 <= #[trigger] d[i] <= 57
}

/// What parsing a byte string as an unsigned integer no greater than `max` gives, as
/// `FromStr` for the unsigned integer types does: an optional `+` followed by one or more ASCII
/// digits whose value is at most `max`.
pub open spec fn parse_decimal_spec(b: Seq<u8>, max: nat) -> Option<nat> {
    let digits = if b.len() > 0 && b[0] == 43u8 { b.drop_first() } else { b };
    if digits.len() > 0 && all_ascii_digits(digits) && decimal_value(digits) <= max {
        Some(decimal_value(digits))
    } else {
        None
    }
}

/// What `u32::from_str` gives for a byte string, as `Option`.
pub open spec fn parse_u32_spec(b: Seq<u8>) -> Option<u32> {
    match parse_decimal_spec(b, u32::MAX as nat) {
        Some(v) => Some(v as u32),
        None => None,
    }
}

/// What `usize::from_str` gives for a byte string, as `Option`.
pub open spec fn parse_usize_spec(b: Seq<u8>) -> Option<usize> {
    match parse_decimal_spec(b, usize::MAX as nat) {
        Some(v) => Some(v as usize),
        None => None,
    }
}

proof fn lemma_decimal_value_monotone(d: Seq<u8>, x: u8)
    requires
        48 <= x <= 57,
    ensures
        decimal_value(d.push(x)) >= decimal_value(d),
        decimal_value(d.push(x)) == decimal_value(d) * 10 + (x - 48) as nat,
{
    assert(d.push(x).drop_last() =~= d);
}

/// Parses the bytes of `b` from index `from` on as an unsigned integer no greater than `max`.
fn parse_decimal_from(b: &[u8], from: usize, max: u64) -> (r: Option<u64>)
    requires
        from <= b@.len(),
    ensures
        match parse_decimal_spec(b@.skip(from as int), max as nat) {
            Some(v) => r == Some(v as u64),
            None => r is None,
        },
{
    let ghost t = b@.skip(from as int);
    let n = b.len();
    let start: usize = if from < n && b[from] == 43u8 { from + 1 } else { from };
    let ghost digits = if t.len() > 0 && t[0] == 43u8 { t.drop_first() } else { t };
    if start >= n {
        assert(digits.len() == 0);
        return None;
    }
    let mut acc: u64 = 0;
    let mut overflow = false;
    let mut i = start;
    while i < n
        invariant
            from <= start <= i <= n,
            n == b@.len(),
            t == b@.skip(from as int),
            digits == (if t.len() > 0 && t[0] == 43u8 { t.drop_first() } else { t }),
            start as int + digits.len() == n,
            forall|k: int| 0 <= k < digits.len() ==> digits[k] == b@[start + k],
            all_ascii_digits(digits.take(i - start)),
            !overflow ==> acc == decimal_value(digits.take(i - start)) && acc <= max,
            overflow ==> decimal_value(digits.take(i - start)) > max,
        decreases n - i,
    {
        let c = b[i];
        if c < 48u8 || c > 57u8 {
            assert(digits[i - start] == c);
            assert(!all_ascii_digits(digits));
            return None;
        }
        proof {
            let p = digits.take(i - start);
            assert(digits.take(i + 1 - start) =~= p.push(c));
            lemma_decimal_value_monotone(p, c);
        }
        if !overflow {
            let next: u128 = (acc as u128) * 10 + ((c - 48u8) as u128);
            if next > max as u128 {
                overflow = true;
            } else {
                acc = next as u64;
            }
        }
        i += 1;
    }
    assert(digits.take(n - start) =~= digits);
    if overflow {
        None
    } else {
        Some(acc)
    }
}

/// Parses the bytes of `b` from index `from` on as `u32::from_str(..).ok()` does.
pub fn parse_u32_from(b: &[u8], from: usize) -> (r: Option<u32>)
    requires
        from <= b@.len(),
    ensures
        r == parse_u32_spec(b@.skip(from as int)),
{
    match parse_decimal_from(b, from, 4294967295u64) {
        Some(v) => Some(v as u32),
        None => None,
    }
}

/// Parses `s` as `usize::from_str(..).ok()` does.
pub fn parse_usize(s: &str) -> (r: Option<usize>)
    ensures
        r == parse_usize_spec(vstd::utf8::encode_utf8(s@)),
{
    let b = s.as_bytes();
    proof {
        assert(b@.skip(0) =~= b@);
    }
    match parse_decimal_from(b, 0, usize::MAX as u64) {
        Some(v) => Some(v as usize),
        None => None,
    }
}

/// The lowercase form of a string, as `str::to_lowercase` computes it from the Unicode
/// lowercase mappings.
pub uninterp spec fn lowercase(s: Seq<char>) -> Seq<char>;

/// `str::to_lowercase`: the lowercase equivalent of `s`, which depends on `s` alone.
#[verifier::external_body]
pub(crate) fn to_lowercase(s: &str) -> (r: String)
    ensures
        r@ == lowercase(s@),
{
    s.to_lowercase()
}

/// `String::push`: appends one character.
#[verifier::external_body]
pub(crate) fn push_char(s: &mut String, c: char)
    ensures
        final(s)@ == old(s)@.push(c),
{
    s.push(c);
}

/// Whether `s` begins with `prefix`, character for character.
pub fn starts_with(s: &str, prefix: &str) -> (r: bool)
    ensures
        r == (prefix@.len() <= s@.len() && s@.subrange(0, prefix@.len() as int) == prefix@),
{
    let a = chars_of(s);
    let b = chars_of(prefix);
    if b.len() > a.len() {
        return false;
    }
    let mut i: usize = 0;
    while i < b.len()
        invariant
            a@ == s@,
            b@ == prefix@,
            b.len() <= a.len(),
            i <= b.len(),
            forall|k: int| 0 <= k < i ==> a@[k] == b@[k],
        decreases b.len() - i,
    {
        if a[i] != b[i] {
            assert(s@.subrange(0, prefix@.len() as int)[i as int] != prefix@[i as int]);
            return false;
        }
        i += 1;
    }
    assert(s@.subrange(0, prefix@.len() as int) =~= prefix@);
    true
}


/// The string made of the characters `cs[from..]`.
pub fn string_from_chars(cs: &Vec<char>, from: usize) -> (r: String)
    requires
        from <= cs@.len(),
    ensures
        r@ == cs@.skip(from as int),
{
    let mut r = String::new();
    let mut i = from;
    while i < cs.len()
        invariant
            from <= i <= cs.len(),
            r@ == cs@.subrange(from as int, i as int),
        decreases cs.len() - i,
    {
        push_char(&mut r, cs[i]);
        proof {
            assert(cs@.subrange(from as int, i + 1) =~= cs@.subrange(from as int, i as int).push(cs@[i as int]));
        }
        i += 1;
    }
    assert(cs@.subrange(from as int, cs@.len() as int) =~= cs@.skip(from as int));
    r
}

/// `s` without its leading `prefix`, when it begins with it.
pub fn strip_prefix(s: &str, prefix: &str) -> (r: Option<String>)
    ensures
        r is Some <==> (prefix@.len() <= s@.len() && s@.subrange(0, prefix@.len() as int) == prefix@),
        r matches Some(t) ==> t@ == s@.skip(prefix@.len() as int),
{
    if starts_with(s, prefix) {
        let cs = chars_of(s);
        let n = chars_of(prefix).len();
        Some(string_from_chars(&cs, n))
    } else {
        None
    }
}


/// Lexicographic order on character sequences, character by character by code point: the
/// order in which `str`'s `<` ranks strings (UTF-8 keeps code point order byte for byte).
pub open spec fn lex_lt(a: Seq<char>, b: Seq<char>) -> bool
    decreases a.len(),
{
    if a.len() == 0 {
        b.len() > 0
    } else if b.len() == 0 {
        false
    } else if a[0] != b[0] {
        a[0] < b[0]
    } else {
        lex_lt(a.drop_first(), b.drop_first())
    }
}

/// No sequence comes before itself.
pub proof fn lemma_lex_lt_irreflexive(a: Seq<char>)
    ensures
        !lex_lt(a, a),
    decreases a.len(),
{
    if a.len() > 0 {
        lemma_lex_lt_irreflexive(a.drop_first());
    }
}

/// The order is transitive.
pub proof fn lemma_lex_lt_transitive(a: Seq<char>, b: Seq<char>, c: Seq<char>)
    requires
        lex_lt(a, b),
        lex_lt(b, c),
    ensures
        lex_lt(a, c),
    decreases a.len(),
{
    if a.len() > 0 && b.len() > 0 && c.len() > 0 && a[0] == b[0] && b[0] == c[0] {
        lemma_lex_lt_transitive(a.drop_first(), b.drop_first(), c.drop_first());
    }
}

/// Of two different sequences one comes first.
pub proof fn lemma_lex_lt_total(a: Seq<char>, b: Seq<char>)
    requires
        a != b,
    ensures
        lex_lt(a, b) || lex_lt(b, a),
    decreases a.len(),
{
    if a.len() > 0 && b.len() > 0 && a[0] == b[0] {
        if a.drop_first() == b.drop_first() {
            assert(a =~= seq![a[0]] + a.drop_first());
            assert(b =~= seq![b[0]] + b.drop_first());
        }
        lemma_lex_lt_total(a.drop_first(), b.drop_first());
    } else if a.len() == 0 && b.len() == 0 {
        assert(a =~= b);
    }
}

/// Whether `a` comes before `b` in lexicographic order.
pub fn str_lt(a: &str, b: &str) -> (r: bool)
    ensures
        r == lex_lt(a@, b@),
{
    let x = chars_of(a);
    let y = chars_of(b);
    let mut i: usize = 0;
    assert(a@.skip(0) =~= a@ && b@.skip(0) =~= b@);
    while i < x.len() && i < y.len()
        invariant
            x@ == a@,
            y@ == b@,
            i <= x.len(),
            i <= y.len(),
            lex_lt(a@, b@) == lex_lt(a@.skip(i as int), b@.skip(i as int)),
        decreases x.len() - i,
    {
        let cx = x[i];
        let cy = y[i];
        if cx != cy {
            return cx < cy;
        }
        proof {
            assert(a@.skip(i as int).drop_first() =~= a@.skip(i + 1));
            assert(b@.skip(i as int).drop_first() =~= b@.skip(i + 1));
        }
        i += 1;
    }
    i == x.len() && i < y.len()
}

/// The text of a list of strings.
pub open spec fn texts(v: Seq<String>) -> Seq<Seq<char>> {
    v.map_values(|s: String| s@)
}

/// Each comes strictly before the next in lexicographic order.
pub open spec fn strictly_sorted(v: Seq<Seq<char>>) -> bool {
    forall|i: int, j: int| 0 <= i < j < v.len() ==> lex_lt(#[trigger] v[i], #[trigger] v[j])
}

/// The distinct strings of `items`, each once, in lexicographic order.
pub fn sorted_distinct(items: &Vec<String>) -> (r: Vec<String>)
    ensures
        strictly_sorted(texts(r@)),
        forall|i: int, j: int| 0 <= i < j < r@.len() ==> r@[i]@ != r@[j]@,
        forall|s: Seq<char>| texts(r@).contains(s) <==> texts(items@).contains(s),
{
    let mut r: Vec<String> = Vec::new();
    let mut k: usize = 0;
    while k < items.len()
        invariant
            k <= items@.len(),
            strictly_sorted(texts(r@)),
            forall|s: Seq<char>| texts(r@).contains(s) <==> texts(items@.take(k as int)).contains(s),
        decreases items@.len() - k,
    {
        let id = items[k].clone();
        let mut p: usize = 0;
        while p < r.len() && str_lt(r[p].as_str(), id.as_str())
            invariant
                p <= r@.len(),
                forall|q: int| 0 <= q < p ==> lex_lt(#[trigger] texts(r@)[q], id@),
            decreases r@.len() - p,
        {
            p += 1;
        }
        let ghost old_r = texts(r@);
        let ghost d0 = texts(items@.take(k as int));
        let ghost d1 = texts(items@.take(k + 1));
        proof {
            assert(items@.take(k + 1) =~= items@.take(k as int).push(items@[k as int]));
            assert(texts(items@.take(k + 1)) =~= texts(items@.take(k as int)).push(id@));
        }
        if p < r.len() && str_eq(r[p].as_str(), id.as_str()) {
            proof {
                assert(old_r[p as int] == id@);
                assert forall|s: Seq<char>| old_r.contains(s) <==> d1.contains(s) by {
                    if d1.contains(s) {
                        if s == id@ {
                            assert(old_r[p as int] == s);
                        } else {
                            let w = choose|w: int| 0 <= w < d1.len() && d1[w] == s;
                            assert(d0[w] == s);
                            assert(d0.contains(s));
                        }
                    }
                    if old_r.contains(s) {
                        assert(d0.contains(s));
                        let w = choose|w: int| 0 <= w < d0.len() && d0[w] == s;
                        assert(d1[w] == s);
                    }
                }
            }
        } else {
            proof {
                if p < r@.len() {
                    lemma_lex_lt_total(old_r[p as int], id@);
                }
            }
            r.insert(p, id);
            proof {
                let nr = texts(r@);
                assert(nr =~= old_r.insert(p as int, id@));
                assert forall|i: int, j: int| 0 <= i < j < nr.len() implies lex_lt(#[trigger] nr[i], #[trigger] nr[j]) by {
                    if j < p {
                    } else if i < p && j == p {
                    } else if i < p {
                        assert(lex_lt(old_r[i], id@));
                        assert(lex_lt(id@, old_r[p as int]));
                        lemma_lex_lt_transitive(old_r[i], id@, old_r[p as int]);
                        if j - 1 > p {
                            lemma_lex_lt_transitive(old_r[i], old_r[p as int], old_r[j - 1]);
                        }
                    } else if i == p {
                        if j - 1 > p {
                            lemma_lex_lt_transitive(id@, old_r[p as int], old_r[j - 1]);
                        }
                    } else {
                        assert(nr[i] == old_r[i - 1] && nr[j] == old_r[j - 1]);
                    }
                }
                assert forall|s: Seq<char>| nr.contains(s) <==> d1.contains(s) by {
                    if s == id@ {
                        assert(d1[k as int] == s);
                        assert(nr[p as int] == s);
                    }
                    if nr.contains(s) && s != id@ {
                        let w = choose|w: int| 0 <= w < nr.len() && nr[w] == s;
                        if w < p {
                            assert(old_r[w] == s);
                        } else {
                            assert(old_r[w - 1] == s);
                        }
                        assert(old_r.contains(s));
                        assert(d0.contains(s));
                        let v = choose|v: int| 0 <= v < d0.len() && d0[v] == s;
                        assert(d1[v] == s);
                    }
                    if d1.contains(s) {
                        if s == id@ {
                            assert(nr[p as int] == s);
                        } else {
                            let w = choose|w: int| 0 <= w < d1.len() && d1[w] == s;
                            assert(d0[w] == s);
                            assert(d0.contains(s));
                            assert(old_r.contains(s));
                            let v = choose|v: int| 0 <= v < old_r.len() && old_r[v] == s;
                            if v < p {
                                assert(nr[v] == s);
                            } else {
                                assert(nr[v + 1] == s);
                            }
                        }
                    }
                }
            }
        }
        k += 1;
    }
    assert(items@.take(items@.len() as int) =~= items@);
    assert forall|i: int, j: int| 0 <= i < j < r@.len() implies r@[i]@ != r@[j]@ by {
        assert(lex_lt(texts(r@)[i], texts(r@)[j]));
        lemma_lex_lt_irreflexive(r@[i]@);
    }
    r
}

/// Whether `c` has the Unicode `White_Space` property, which `char::is_whitespace` and
/// `str::trim` go by.
pub open spec fn is_white_space(c: char) -> bool {
    let u = c as u32;
    (0x9 <= u <= 0xD) || u == 0x20 || u == 0x85 || u == 0xA0 || u == 0x1680 || (0x2000 <= u <= 0x200A)
        || u == 0x2028 || u == 0x2029 || u == 0x202F || u == 0x205F || u == 0x3000
}

/// `s` without its leading whitespace.
pub open spec fn trimmed_start(s: Seq<char>) -> Seq<char>
    decreases s.len(),
{
    if s.len() > 0 && is_white_space(s[0]) {
        trimmed_start(s.drop_first())
    } else {
        s
    }
}

/// `s` without its trailing whitespace.
pub open spec fn trimmed_end(s: Seq<char>) -> Seq<char>
    decreases s.len(),
{
    if s.len() > 0 && is_white_space(s.last()) {
        trimmed_end(s.drop_last())
    } else {
        s
    }
}

/// `s` without leading and trailing whitespace, as `str::trim` removes it.
pub open spec fn trimmed(s: Seq<char>) -> Seq<char> {
    trimmed_end(trimmed_start(s))
}

proof fn lemma_trimmed_start_at(s: Seq<char>, lo: int)
    requires
        0 <= lo <= s.len(),
        forall|j: int| 0 <= j < lo ==> is_white_space(#[trigger] s[j]),
        lo == s.len() || !is_white_space(s[lo]),
    ensures
        trimmed_start(s) == s.skip(lo),
    decreases lo,
{
    if lo == 0 {
        assert(s.skip(0) =~= s);
    } else {
        let t = s.drop_first();
        assert forall|j: int| 0 <= j < lo - 1 implies is_white_space(#[trigger] t[j]) by {
            assert(t[j] == s[j + 1]);
        }
        if lo < s.len() {
            assert(t[lo - 1] == s[lo]);
        }
        lemma_trimmed_start_at(t, lo - 1);
        assert(t.skip(lo - 1) =~= s.skip(lo));
    }
}

proof fn lemma_trimmed_end_at(s: Seq<char>, hi: int)
    requires
        0 <= hi <= s.len(),
        forall|j: int| hi <= j < s.len() ==> is_white_space(#[trigger] s[j]),
        hi == 0 || !is_white_space(s[hi - 1]),
    ensures
        trimmed_end(s) == s.take(hi),
    decreases s.len() - hi,
{
    if hi == s.len() {
        assert(s.take(hi) =~= s);
    } else {
        let t = s.drop_last();
        assert forall|j: int| hi <= j < t.len() implies is_white_space(#[trigger] t[j]) by {
            assert(t[j] == s[j]);
        }
        if hi > 0 {
            assert(t[hi - 1] == s[hi - 1]);
        }
        assert(is_white_space(s[s.len() - 1]));
        lemma_trimmed_end_at(t, hi);
        assert(t.take(hi) =~= s.take(hi));
    }
}

fn white_space(c: char) -> (r: bool)
    ensures
        r == is_white_space(c),
{
    let u = c as u32;
    (0x9 <= u && u <= 0xD) || u == 0x20 || u == 0x85 || u == 0xA0 || u == 0x1680 || (0x2000 <= u && u <= 0x200A)
        || u == 0x2028 || u == 0x2029 || u == 0x202F || u == 0x205F || u == 0x3000
}

/// `s` without leading and trailing whitespace, as `str::trim` gives it.
pub fn trim(s: &str) -> (r: String)
    ensures
        r@ == trimmed(s@),
{
    let cs = chars_of(s);
    let mut lo: usize = 0;
    while lo < cs.len() && white_space(cs[lo])
        invariant
            cs@ == s@,
            lo <= cs@.len(),
            forall|j: int| 0 <= j < lo ==> is_white_space(#[trigger] cs@[j]),
        decreases cs@.len() - lo,
    {
        lo += 1;
    }
    proof {
        lemma_trimmed_start_at(s@, lo as int);
    }
    let ghost t = s@.skip(lo as int);
    let mut hi: usize = cs.len();
    while hi > lo && white_space(cs[hi - 1])
        invariant
            cs@ == s@,
            lo <= hi <= cs@.len(),
            t == s@.skip(lo as int),
            forall|j: int| hi <= j < cs@.len() ==> is_white_space(#[trigger] cs@[j]),
        decreases hi - lo,
    {
        hi -= 1;
    }
    proof {
        assert forall|j: int| hi - lo <= j < t.len() implies is_white_space(#[trigger] t[j]) by {
            assert(t[j] == cs@[j + lo]);
        }
        if hi > lo {
            assert(t[hi - lo - 1] == cs@[hi - 1]);
        }
        lemma_trimmed_end_at(t, hi - lo);
    }
    let mut out = String::new();
    let mut k: usize = lo;
    while k < hi
        invariant
            cs@ == s@,
            lo <= k <= hi <= cs@.len(),
            out@ == cs@.subrange(lo as int, k as int),
        decreases hi - k,
    {
        push_char(&mut out, cs[k]);
        assert(cs@.subrange(lo as int, k + 1) =~= cs@.subrange(lo as int, k as int).push(cs@[k as int]));
        k += 1;
    }
    assert(t.take(hi - lo) =~= cs@.subrange(lo as int, hi as int));
    out
}

} // verus!