//! String and character helpers shared by the rest of the library.
//!
//! Strings are modelled by their view, a `Seq<char>`.
use vstd::prelude::*;

verus! {

/// Compares two string slices by content.
///
/// Trusted: calls `<str as PartialEq>::eq`, which std documents as equality
/// of the two character sequences.
#[verifier::external_body]
pub(crate) fn str_eq(a: &str, b: &str) -> (r: bool)
    ensures
        r == (a@ == b@),
{
    a == b
}

/// Appends one character to a string.
///
/// Trusted: calls `String::push`, which std documents as appending `c` to
/// the end of the string.
#[verifier::external_body]
pub(crate) fn string_push(s: &mut String, c: char)
    ensures
        final(s)@ == old(s)@.push(c),
{
    s.push(c)
}

/// An owned copy of a string slice.
pub fn str_from(s: &str) -> (r: String)
    ensures
        r@ == s@,
{
    s.to_owned()
}

/// The characters of a string slice, in order.
pub fn chars_of(s: &str) -> (v: Vec<char>)
    ensures
        v@ == s@,
{
    let mut v: Vec<char> = Vec::new();
    for c in it: s.chars()
        invariant
            v@ == it.seq().take(it.index() as int),
            it.seq() == s@,
    {
        v.push(c);
    }
    v
}

/// A string made of the given characters.
pub fn string_from_chars(cs: &[char]) -> (s: String)
    ensures
        s@ == cs@,
{
    let mut s = String::new();
    let mut i: usize = 0;
    while i < cs.len()
        invariant
            i <= cs.len(),
            s@ == cs@.take(i as int),
        decreases cs.len() - i,
    {
        string_push(&mut s, cs[i]);
        proof {
            assert(cs@.take(i + 1) =~= cs@.take(i as int).push(cs@[i as int]));
        }
        i = i + 1;
    }
    proof {
        assert(cs@.take(cs@.len() as int) =~= cs@);
    }
    s
}

/// The Unicode White_Space property, as `char::is_whitespace` tests it.
pub open spec fn is_ws(c: char) -> bool {
    let u = c as u32;
    ||| (0x09 <= u && u <= 0x0D)
    ||| u == 0x20
    ||| u == 0x85
    ||| u == 0xA0
    ||| u == 0x1680
    ||| (0x2000 <= u && u <= 0x200A)
    ||| u == 0x2028
    ||| u == 0x2029
    ||| u == 0x202F
    ||| u == 0x205F
    ||| u == 0x3000
}

/// Whether a character is white space.
pub fn is_whitespace(c: char) -> (r: bool)
    ensures
        r == is_ws(c),
{
    let u = c as u32;
    (0x09 <= u && u <= 0x0D) || u == 0x20 || u == 0x85 || u == 0xA0 || u == 0x1680
        || (0x2000 <= u && u <= 0x200A) || u == 0x2028 || u == 0x2029 || u == 0x202F
        || u == 0x205F || u == 0x3000
}

/// The string without leading white space.
pub open spec fn trim_start(s: Seq<char>) -> Seq<char>
    decreases s.len(),
{
    if s.len() > 0 && is_ws(s[0]) {
        trim_start(s.drop_first())
    } else {
        s
    }
}

/// The string without trailing white space.
pub open spec fn trim_end(s: Seq<char>) -> Seq<char>
    decreases s.len(),
{
    if s.len() > 0 && is_ws(s.last()) {
        trim_end(s.drop_last())
    } else {
        s
    }
}

/// The string without leading and trailing white space, as `str::trim` gives it.
pub open spec fn trim(s: Seq<char>) -> Seq<char> {
    trim_end(trim_start(s))
}

proof fn lemma_trim_start_skip(s: Seq<char>, i: int)
    requires
        0 <= i <= s.len(),
        forall|j: int| 0 <= j < i ==> is_ws(s[j]),
    ensures
        trim_start(s) == trim_start(s.skip(i)),
    decreases i,
{
    if i > 0 {
        assert(s.skip(1) =~= s.drop_first());
        assert forall|j: int| 0 <= j < i - 1 implies is_ws(s.drop_first()[j]) by {
            assert(s.drop_first()[j] == s[j + 1]);
        }
        lemma_trim_start_skip(s.drop_first(), i - 1);
        assert(s.drop_first().skip(i - 1) =~= s.skip(i));
    } else {
        assert(s.skip(0) =~= s);
    }
}

proof fn lemma_trim_end_take(s: Seq<char>, e: int)
    requires
        0 <= e <= s.len(),
        forall|j: int| e <= j < s.len() ==> is_ws(s[j]),
    ensures
        trim_end(s) == trim_end(s.take(e)),
    decreases s.len() - e,
{
    if e < s.len() {
        assert(s.drop_last().take(e) =~= s.take(e));
        lemma_trim_end_take(s.drop_last(), e);
    } else {
        assert(s.take(e) =~= s);
    }
}

/// `s` with leading and trailing white space removed.
pub fn trim_str(s: &str) -> (r: String)
    ensures
        r@ == trim(s@),
{
    let cs = chars_of(s);
    let mut b: usize = 0;
    while b < cs.len() && is_whitespace(cs[b])
        invariant
            b <= cs.len(),
            forall|j: int| 0 <= j < b ==> is_ws(cs@[j]),
        decreases cs.len() - b,
    {
        b = b + 1;
    }
    let mut e: usize = cs.len();
    while e > b && is_whitespace(cs[e - 1])
        invariant
            b <= e <= cs.len(),
            forall|j: int| e <= j < cs.len() ==> is_ws(cs@[j]),
        decreases e,
    {
        e = e - 1;
    }
    proof {
        lemma_trim_start_skip(s@, b as int);
        let rest = s@.skip(b as int);
        if b < cs.len() {
            assert(rest[0] == s@[b as int]);
        } else {
            assert(rest.len() == 0);
        }
        assert(trim_start(rest) == rest);
        assert forall|j: int| e - b <= j < rest.len() implies is_ws(rest[j]) by {
            assert(rest[j] == s@[j + b]);
        }
        lemma_trim_end_take(rest, e - b);
        let mid = rest.take(e - b);
        if e > b {
            assert(mid.last() == s@[e - 1]);
        }
        assert(trim_end(mid) == mid);
        assert(mid =~= cs@.subrange(b as int, e as int));
    }
    let mut out = String::new();
    let mut i = b;
    while i < e
        invariant
            b <= i <= e,
            e <= cs.len(),
            out@ == cs@.subrange(b as int, i as int),
        decreases e - i,
    {
        string_push(&mut out, cs[i]);
        proof {
            assert(cs@.subrange(b as int, i + 1) =~= cs@.subrange(b as int, i as int).push(cs@[i as int]));
        }
        i = i + 1;
    }
    out
}

/// The decimal digit character for `d` (0 to 9).
pub open spec fn digit_char(d: nat) -> char {
    if d == 0 { '0' } else if d == 1 { '1' } else if d == 2 { '2' } else if d == 3 { '3' }
    else if d == 4 { '4' } else if d == 5 { '5' } else if d == 6 { '6' } else if d == 7 { '7' }
    else if d == 8 { '8' } else { '9' }
}

/// The decimal representation of a natural number, without leading zeros.
pub open spec fn decimal(n: nat) -> Seq<char>
    decreases n,
{
    if n < 10 {
        seq![digit_char(n)]
    } else {
        decimal(n / 10).push(digit_char(n % 10))
    }
}

fn digit(d: u64) -> (c: char)
    requires
        d < 10,
    ensures
        c == digit_char(d as nat),
{
    if d == 0 { '0' } else if d == 1 { '1' } else if d == 2 { '2' } else if d == 3 { '3' }
    else if d == 4 { '4' } else if d == 5 { '5' } else if d == 6 { '6' } else if d == 7 { '7' }
    else if d == 8 { '8' } else { '9' }
}

/// The decimal representation of `n`, as `n.to_string()` writes it.
pub fn u64_decimal(n: u64) -> (s: String)
    ensures
        s@ == decimal(n as nat),
    decreases n,
{
    if n < 10 {
        let mut s = String::new();
        string_push(&mut s, digit(n));
        proof {
            assert(s@ =~= seq![digit_char(n as nat)]);
        }
        s
    } else {
        let mut s = u64_decimal(n / 10);
        string_push(&mut s, digit(n % 10));
        s
    }
}


/// The Unicode control characters (general category Cc), as
/// `char::is_control` tests them.
pub open spec fn is_ctrl(c: char) -> bool {
    let u = c as u32;
    u <= 0x1F || (0x7F <= u && u <= 0x9F)
}

/// Whether a character is a control character.
pub fn is_control(c: char) -> (r: bool)
    ensures
        r == is_ctrl(c),
{
    let u = c as u32;
    u <= 0x1F || (0x7F <= u && u <= 0x9F)
}

/// What std's `str::to_lowercase` gives for a string.
pub uninterp spec fn lowercase(s: Seq<char>) -> Seq<char>;

/// The ASCII lowercase of a character: `A` to `Z` become `a` to `z`, every
/// other character is kept.
pub open spec fn ascii_lower(c: char) -> char {
    if 'A' <= c && c <= 'Z' {
        ((c as u32) + 32) as char
    } else {
        c
    }
}

/// Whether every character of a string is ASCII.
pub open spec fn all_ascii(s: Seq<char>) -> bool {
    forall|i: int| 0 <= i < s.len() ==> (#[trigger] s[i] as u32) < 128
}

/// The lowercase form of a string.
///
/// Trusted: calls `str::to_lowercase`, which maps each character by the
/// Unicode lowercase mapping. Its result depends on the string alone, so
/// the contract names it; on an all-ASCII string that mapping turns `A` to
/// `Z` into `a` to `z` and keeps every other character, which the contract
/// states too. Of other strings it states nothing more.
#[verifier::external_body]
pub(crate) fn to_lowercase(s: &str) -> (r: String)
    ensures
        r@ == lowercase(s@),
        all_ascii(s@) ==> r@ == s@.map_values(|c: char| ascii_lower(c)),
{
    s.to_lowercase()
}

/// The white-space separated words of a string, in order, as
/// `str::split_whitespace` yields them.
pub open spec fn words(s: Seq<char>) -> Seq<Seq<char>>
    decreases s.len(),
{
    if s.len() == 0 {
        Seq::empty()
    } else {
        let w = words(s.drop_last());
        let c = s.last();
        if is_ws(c) {
            w
        } else if s.len() >= 2 && !is_ws(s[s.len() - 2]) {
            w.update(w.len() - 1, w.last().push(c))
        } else {
            w.push(seq![c])
        }
    }
}

/// The content of a list of strings.
pub open spec fn strings_view(v: Seq<String>) -> Seq<Seq<char>> {
    v.map_values(|x: String| x@)
}

/// A string ending in a non-space character has a last word, which ends in
/// that character.
proof fn lemma_words_last(s: Seq<char>)
    requires
        s.len() > 0,
        !is_ws(s.last()),
    ensures
        words(s).len() > 0,
    decreases s.len(),
{
    if s.len() >= 2 && !is_ws(s[s.len() - 2]) {
        lemma_words_last(s.drop_last());
    }
}

/// Every word is non-empty, and every character of a word satisfies any test
/// that all characters of the string satisfy.
pub proof fn lemma_words_chars(s: Seq<char>, p: spec_fn(char) -> bool)
    requires
        forall|i: int| 0 <= i < s.len() ==> p(s[i]),
    ensures
        forall|k: int| 0 <= k < words(s).len() ==> #[trigger] words(s)[k].len() > 0,
        forall|k: int, j: int| 0 <= k < words(s).len() && 0 <= j < words(s)[k].len() ==> p(#[trigger] words(s)[k][j]),
    decreases s.len(),
{
    if s.len() > 0 {
        let d = s.drop_last();
        assert forall|i: int| 0 <= i < d.len() implies p(d[i]) by {
            assert(d[i] == s[i]);
        }
        lemma_words_chars(d, p);
        let w = words(d);
        let c = s.last();
        assert(p(c));
        if is_ws(c) {
        } else if s.len() >= 2 && !is_ws(s[s.len() - 2]) {
            lemma_words_last(d);
            let w2 = w.update(w.len() - 1, w.last().push(c));
            assert forall|k: int, j: int| 0 <= k < w2.len() && 0 <= j < w2[k].len() implies p(#[trigger] w2[k][j]) by {
                if k == w.len() - 1 {
                    if j < w.last().len() {
                        assert(w2[k][j] == w[k][j]);
                    }
                } else {
                    assert(w2[k] == w[k]);
                }
            }
        } else {
            let w2 = w.push(seq![c]);
            assert forall|k: int, j: int| 0 <= k < w2.len() && 0 <= j < w2[k].len() implies p(#[trigger] w2[k][j]) by {
                if k < w.len() {
                    assert(w2[k] == w[k]);
                }
            }
        }
    }
}

/// The white-space separated words of `s`.
pub fn split_whitespace(s: &str) -> (r: Vec<String>)
    ensures
        strings_view(r@) == words(s@),
{
    let cs = chars_of(s);
    let mut out: Vec<String> = Vec::new();
    let mut cur = String::new();
    let mut in_word = false;
    let mut i: usize = 0;
    while i < cs.len()
        invariant
            i <= cs.len(),
            cs@ == s@,
            in_word ==> cur@.len() > 0 && i > 0 && !is_ws(cs@[i - 1])
                && words(cs@.take(i as int)) == strings_view(out@).push(cur@),
            !in_word ==> (i == 0 || is_ws(cs@[i - 1])) && words(cs@.take(i as int)) == strings_view(out@),
        decreases cs.len() - i,
    {
        let c = cs[i];
        proof {
            assert(cs@.take(i + 1).drop_last() =~= cs@.take(i as int));
            assert(cs@.take(i + 1).last() == c);
            if i > 0 {
                assert(cs@.take(i + 1)[i - 1] == cs@[i - 1]);
            }
        }
        if is_whitespace(c) {
            if in_word {
                let ghost before = strings_view(out@);
                out.push(cur);
                cur = String::new();
                in_word = false;
                proof {
                    assert(strings_view(out@) =~= before.push(out@[out@.len() - 1]@));
                }
            }
        } else {
            if in_word {
                let ghost w = cur@;
                string_push(&mut cur, c);
                proof {
                    let ws = strings_view(out@).push(w);
                    assert(ws.update(ws.len() - 1, ws.last().push(c)) =~= strings_view(out@).push(cur@));
                }
            } else {
                cur = String::new();
                string_push(&mut cur, c);
                in_word = true;
                proof {
                    assert(cur@ =~= seq![c]);
                }
            }
        }
        i = i + 1;
    }
    if in_word {
        let ghost before = strings_view(out@);
        out.push(cur);
        proof {
            assert(strings_view(out@) =~= before.push(out@[out@.len() - 1]@));
        }
    }
    proof {
        assert(cs@.take(cs@.len() as int) =~= cs@);
    }
    out
}


/// Appends a string slice to a string.
pub fn push_str(s: &mut String, t: &str)
    ensures
        final(s)@ == old(s)@ + t@,
{
    let cs = chars_of(t);
    let mut i: usize = 0;
    while i < cs.len()
        invariant
            i <= cs.len(),
            cs@ == t@,
            s@ == old(s)@ + cs@.take(i as int),
        decreases cs.len() - i,
    {
        string_push(s, cs[i]);
        proof {
            assert(cs@.take(i + 1) =~= cs@.take(i as int).push(cs@[i as int]));
            assert(s@ =~= old(s)@ + cs@.take(i + 1));
        }
        i = i + 1;
    }
    proof {
        assert(cs@.take(cs@.len() as int) =~= cs@);
    }
}


/// Whether `pat` occurs in `s`.
pub open spec fn occurs_in(s: Seq<char>, pat: Seq<char>) -> bool {
    exists|i: int| 0 <= i && i + pat.len() <= s.len() && #[trigger] s.subrange(i, i + pat.len()) == pat
}

/// Whether `pat` occurs in `s`, as `str::contains` tests it.
pub fn contains_str(s: &str, pat: &str) -> (r: bool)
    ensures
        r == occurs_in(s@, pat@),
{
    let cs = chars_of(s);
    let ps = chars_of(pat);
    if ps.len() > cs.len() {
        proof {
            assert forall|i: int| 0 <= i && i + pat@.len() <= s@.len() implies #[trigger] s@.subrange(i, i + pat@.len())
                != pat@ by {
            }
        }
        return false;
    }
    let mut i: usize = 0;
    while i <= cs.len() - ps.len()
        invariant
            cs@ == s@,
            ps@ == pat@,
            ps.len() <= cs.len(),
            i <= cs.len() - ps.len() + 1,
            forall|k: int| 0 <= k < i ==> #[trigger] s@.subrange(k, k + pat@.len()) != pat@,
        decreases cs.len() - i,
    {
        let mut j: usize = 0;
        while j < ps.len() && cs[i + j] == ps[j]
            invariant
                cs@ == s@,
                ps@ == pat@,
                i + ps.len() <= cs.len(),
                j <= ps.len(),
                forall|m: int| 0 <= m < j ==> cs@[i + m] == ps@[m],
            decreases ps.len() - j,
        {
            j = j + 1;
        }
        if j == ps.len() {
            proof {
                assert(s@.subrange(i as int, i + pat@.len()) =~= pat@);
            }
            return true;
        }
        proof {
            assert(s@.subrange(i as int, i + pat@.len())[j as int] != pat@[j as int]);
        }
        i = i + 1;
    }
    false
}

} // verus!
