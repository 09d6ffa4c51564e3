//! Character-level text operations with their specifications: substring
//! replacement, prefix and containment tests, whitespace trimming and the
//! lexicographic order of strings.

use vstd::prelude::*;

verus! {

/// Appends one character to a string (`String::push`).
#[verifier::external_body]
pub(crate) fn push_char(s: &mut String, c: char)
    ensures
        final(s)@ == old(s)@.push(c),
{
    s.push(c);
}

/// The characters of `s`, in order.
pub fn chars_of(s: &str) -> (v: Vec<char>)
    ensures
        v@ == s@,
{
    let mut v: Vec<char> = Vec::new();
    for c in it: s.chars()
        invariant
            v@ == it.seq().take(it.index() as int),
    {
        v.push(c);
    }
    v
}


/// The result of replacing, from left to right, every non-overlapping
/// occurrence of `pat` in `s` by `rep`. An empty pattern occurs at every
/// character boundary, the two ends included.
pub open spec fn replace_all(s: Seq<char>, pat: Seq<char>, rep: Seq<char>) -> Seq<char>
    decreases s.len(),
{
    if s.len() == 0 {
        if pat.len() == 0 {
            rep
        } else {
            s
        }
    } else if pat.len() == 0 {
        rep + seq![s[0]] + replace_all(s.drop_first(), pat, rep)
    } else if pat.is_prefix_of(s) {
        rep + replace_all(s.skip(pat.len() as int), pat, rep)
    } else {
        seq![s[0]] + replace_all(s.drop_first(), pat, rep)
    }
}

/// The result of replacing only the leftmost occurrence of `pat` in `s` by
/// `rep`; `s` itself where `pat` does not occur.
pub open spec fn replace_first(s: Seq<char>, pat: Seq<char>, rep: Seq<char>) -> Seq<char>
    decreases s.len(),
{
    if pat.is_prefix_of(s) {
        rep + s.skip(pat.len() as int)
    } else if s.len() == 0 {
        s
    } else {
        seq![s[0]] + replace_first(s.drop_first(), pat, rep)
    }
}

/// `pat` occurs in `s` at position `i`.
pub open spec fn occurs_at(s: Seq<char>, pat: Seq<char>, i: int) -> bool {
    0 <= i && pat.is_prefix_of(s.skip(i))
}

/// `pat` occurs somewhere in `s`.
pub open spec fn occurs_in(s: Seq<char>, pat: Seq<char>) -> bool {
    exists|i: int| 0 <= i <= s.len() && #[trigger] occurs_at(s, pat, i)
}

/// Where a non-empty pattern does not occur, replacing it changes nothing.
pub proof fn lemma_replace_absent(s: Seq<char>, pat: Seq<char>, rep: Seq<char>)
    requires
        pat.len() > 0,
        !occurs_in(s, pat),
    ensures
        replace_all(s, pat, rep) == s,
        replace_first(s, pat, rep) == s,
    decreases s.len(),
{
    assert(s.skip(0) =~= s);
    if pat.is_prefix_of(s) {
        assert(occurs_at(s, pat, 0));
    }
    if s.len() > 0 {
        let t = s.drop_first();
        assert(!occurs_in(t, pat)) by {
            if occurs_in(t, pat) {
                let i = choose|i: int| 0 <= i <= t.len() && #[trigger] occurs_at(t, pat, i);
                assert(t.skip(i) =~= s.skip(i + 1));
                assert(occurs_at(s, pat, i + 1));
            }
        }
        lemma_replace_absent(t, pat, rep);
        assert(seq![s[0]] + t =~= s);
    }
}

/// Replacing a non-empty pattern by itself changes nothing.
pub proof fn lemma_replace_by_itself(s: Seq<char>, pat: Seq<char>)
    requires
        pat.len() > 0,
    ensures
        replace_all(s, pat, pat) == s,
        replace_first(s, pat, pat) == s,
    decreases s.len(),
{
    if s.len() > 0 {
        if pat.is_prefix_of(s) {
            lemma_replace_by_itself(s.skip(pat.len() as int), pat);
            assert(pat + s.skip(pat.len() as int) =~= s);
        } else {
            lemma_replace_by_itself(s.drop_first(), pat);
            assert(seq![s[0]] + s.drop_first() =~= s);
        }
    }
}

/// Whether `pat` occurs in `v` at position `i`.
fn matches_at(v: &Vec<char>, i: usize, pat: &Vec<char>) -> (r: bool)
    requires
        i <= v.len(),
    ensures
        r == pat@.is_prefix_of(v@.skip(i as int)),
{
    if v.len() - i < pat.len() {
        return false;
    }
    let mut j: usize = 0;
    while j < pat.len()
        invariant
            i + pat.len() <= v.len(),
            j <= pat.len(),
            forall|k: int| 0 <= k < j ==> v@[i + k] == pat@[k],
        decreases pat.len() - j,
    {
        if v[i + j] != pat[j] {
            assert(v@.skip(i as int)[j as int] != pat@[j as int]);
            return false;
        }
        j = j + 1;
    }
    assert(pat@ =~= v@.skip(i as int).subrange(0, pat@.len() as int));
    true
}

/// Replaces every non-overlapping occurrence of `from` in `s` by `to`
/// (`str::replace`).
pub fn replace(s: &str, from: &str, to: &str) -> (r: String)
    ensures
        r@ == replace_all(s@, from@, to@),
{
    let sv = chars_of(s);
    let pv = chars_of(from);
    let mut out = String::new();
    let mut i: usize = 0;
    assert(sv@.skip(0) =~= sv@);
    assert(out@ + replace_all(sv@, pv@, to@) =~= replace_all(sv@, pv@, to@));
    if pv.len() == 0 {
        while i < sv.len()
            invariant
                i <= sv.len(),
                pv@.len() == 0,
                replace_all(sv@, pv@, to@) == out@ + replace_all(sv@.skip(i as int), pv@, to@),
            decreases sv.len() - i,
        {
            assert(sv@.skip(i as int).drop_first() =~= sv@.skip(i + 1));
            out.append(to);
            push_char(&mut out, sv[i]);
            i = i + 1;
        }
        out.append(to);
        assert(sv@.skip(i as int).len() == 0);
        return out;
    }
    while i < sv.len()
        invariant
            i <= sv.len(),
            pv@.len() > 0,
            replace_all(sv@, pv@, to@) == out@ + replace_all(sv@.skip(i as int), pv@, to@),
        decreases sv.len() - i,
    {
        if matches_at(&sv, i, &pv) {
            assert(sv@.skip(i as int).skip(pv@.len() as int) =~= sv@.skip(i + pv@.len()));
            out.append(to);
            i = i + pv.len();
        } else {
            assert(sv@.skip(i as int).drop_first() =~= sv@.skip(i + 1));
            push_char(&mut out, sv[i]);
            i = i + 1;
        }
    }
    assert(sv@.skip(i as int).len() == 0);
    out
}


/// Appends `v[from..]` to `out`.
fn push_suffix(out: &mut String, v: &Vec<char>, from: usize)
    requires
        from <= v.len(),
    ensures
        final(out)@ == old(out)@ + v@.skip(from as int),
{
    let mut i = from;
    while i < v.len()
        invariant
            from <= i <= v.len(),
            out@ == old(out)@ + v@.subrange(from as int, i as int),
        decreases v.len() - i,
    {
        push_char(out, v[i]);
        assert(v@.subrange(from as int, i + 1) =~= v@.subrange(from as int, i as int).push(v@[i as int]));
        i = i + 1;
    }
    assert(v@.subrange(from as int, v.len() as int) =~= v@.skip(from as int));
}

/// Replaces the leftmost occurrence of `from` in `s` by `to`
/// (`str::replacen` with a count of one).
pub fn replace_once(s: &str, from: &str, to: &str) -> (r: String)
    ensures
        r@ == replace_first(s@, from@, to@),
{
    let sv = chars_of(s);
    let pv = chars_of(from);
    let mut out = String::new();
    let mut i: usize = 0;
    assert(sv@.skip(0) =~= sv@);
    assert(sv@.take(0) =~= Seq::<char>::empty());
    loop
        invariant
            sv@ == s@,
            pv@ == from@,
            i <= sv.len(),
            out@ == sv@.take(i as int),
            replace_first(sv@, pv@, to@) == sv@.take(i as int) + replace_first(sv@.skip(i as int), pv@, to@),
        decreases sv.len() - i,
    {
        if matches_at(&sv, i, &pv) {
            out.append(to);
            push_suffix(&mut out, &sv, i + pv.len());
            assert(sv@.skip(i as int).skip(pv@.len() as int) =~= sv@.skip(i + pv@.len()));
            assert(out@ =~= sv@.take(i as int) + (to@ + sv@.skip(i as int).skip(pv@.len() as int)));
            return out;
        }
        if i == sv.len() {
            assert(sv@.take(i as int) =~= sv@);
            assert(sv@.skip(i as int).len() == 0);
            assert(!pv@.is_prefix_of(sv@.skip(i as int)));
            assert(replace_first(sv@.skip(i as int), pv@, to@) == sv@.skip(i as int));
            assert(sv@.take(i as int) + sv@.skip(i as int) =~= sv@);
            return out;
        }
        assert(sv@.skip(i as int).drop_first() =~= sv@.skip(i + 1));
        assert(sv@.take(i + 1) =~= sv@.take(i as int).push(sv@[i as int]));
        push_char(&mut out, sv[i]);
        i = i + 1;
    }
}

/// Whether `pat` occurs in `s` (`str::contains`).
pub fn contains(s: &str, pat: &str) -> (r: bool)
    ensures
        r == occurs_in(s@, pat@),
{
    let sv = chars_of(s);
    let pv = chars_of(pat);
    let mut i: usize = 0;
    loop
        invariant
            sv@ == s@,
            pv@ == pat@,
            i <= sv.len(),
            forall|k: int| 0 <= k < i ==> !occurs_at(sv@, pv@, k),
        decreases sv.len() - i,
    {
        if matches_at(&sv, i, &pv) {
            assert(occurs_at(sv@, pv@, i as int));
            return true;
        }
        if i == sv.len() {
            assert(forall|k: int| 0 <= k <= sv@.len() ==> !occurs_at(sv@, pv@, k));
            return false;
        }
        i = i + 1;
    }
}

/// Whether `s` begins with `pat` (`str::starts_with`).
pub fn starts_with(s: &str, pat: &str) -> (r: bool)
    ensures
        r == pat@.is_prefix_of(s@),
{
    let sv = chars_of(s);
    let pv = chars_of(pat);
    assert(sv@.skip(0) =~= sv@);
    matches_at(&sv, 0, &pv)
}

/// The characters that `char::is_whitespace` accepts: those with the Unicode
/// `White_Space` property.
pub open spec fn is_white_space(c: char) -> bool {
    ||| ('\u{9}' <= c && c <= '\u{d}')
    ||| c == ' '
    ||| c == '\u{85}'
    ||| c == '\u{a0}'
    ||| c == '\u{1680}'
    ||| ('\u{2000}' <= c && c <= '\u{200a}')
    ||| c == '\u{2028}'
    ||| c == '\u{2029}'
    ||| c == '\u{202f}'
    ||| c == '\u{205f}'
    ||| c == '\u{3000}'
}

/// Whether `c` is a whitespace character.
pub fn is_whitespace_char(c: char) -> (r: bool)
    ensures
        r == is_white_space(c),
{
    ('\u{9}' <= c && c <= '\u{d}') || c == ' ' || c == '\u{85}' || c == '\u{a0}' || c
        == '\u{1680}' || ('\u{2000}' <= c && c <= '\u{200a}') || c == '\u{2028}' || c
        == '\u{2029}' || c == '\u{202f}' || c == '\u{205f}' || c == '\u{3000}'
}

/// `s` without its leading whitespace.
pub open spec fn trim_start(s: Seq<char>) -> Seq<char>
    decreases s.len(),
{
    if s.len() > 0 && is_white_space(s[0]) {
        trim_start(s.drop_first())
    } else {
        s
    }
}

/// `s` without its trailing whitespace.
pub open spec fn trim_end(s: Seq<char>) -> Seq<char>
    decreases s.len(),
{
    if s.len() > 0 && is_white_space(s.last()) {
        trim_end(s.drop_last())
    } else {
        s
    }
}

/// `s` without leading and trailing whitespace (`str::trim`).
pub open spec fn trimmed(s: Seq<char>) -> Seq<char> {
    trim_end(trim_start(s))
}

/// Removes leading and trailing whitespace (`str::trim`).
pub fn trim(s: &str) -> (r: String)
    ensures
        r@ == trimmed(s@),
{
    let sv = chars_of(s);
    let mut a: usize = 0;
    assert(sv@.skip(0) =~= sv@);
    while a < sv.len() && is_whitespace_char(sv[a])
        invariant
            a <= sv.len(),
            trim_start(sv@) == trim_start(sv@.skip(a as int)),
        decreases sv.len() - a,
    {
        assert(sv@.skip(a as int).drop_first() =~= sv@.skip(a + 1));
        a = a + 1;
    }
    let mut b: usize = sv.len();
    assert(sv@.subrange(a as int, b as int) =~= sv@.skip(a as int));
    while b > a && is_whitespace_char(sv[b - 1])
        invariant
            a <= b <= sv.len(),
            trim_start(sv@) == sv@.skip(a as int),
            trim_end(sv@.skip(a as int)) == trim_end(sv@.subrange(a as int, b as int)),
        decreases b,
    {
        assert(sv@.subrange(a as int, b as int).drop_last() =~= sv@.subrange(a as int, b - 1));
        b = b - 1;
    }
    let mut out = String::new();
    let mut i = a;
    while i < b
        invariant
            a <= i <= b <= sv.len(),
            out@ == sv@.subrange(a as int, i as int),
        decreases b - i,
    {
        push_char(&mut out, sv[i]);
        assert(sv@.subrange(a as int, i + 1) =~= sv@.subrange(a as int, i as int).push(sv@[i as int]));
        i = i + 1;
    }
    out
}

/// The lexicographic order of strings, character by character; the order of
/// `str`'s `Ord` (UTF-8 byte order and code point order agree).
pub open spec fn str_lt(a: Seq<char>, b: Seq<char>) -> bool
    decreases a.len(),
{
    if b.len() == 0 {
        false
    } else if a.len() == 0 {
        true
    } else if a[0] == b[0] {
        str_lt(a.drop_first(), b.drop_first())
    } else {
        a[0] < b[0]
    }
}

/// No string is below itself.
pub proof fn lemma_str_lt_irreflexive(a: Seq<char>)
    ensures
        !str_lt(a, a),
    decreases a.len(),
{
    if a.len() > 0 {
        lemma_str_lt_irreflexive(a.drop_first());
    }
}

/// The order of strings is transitive.
pub proof fn lemma_str_lt_transitive(a: Seq<char>, b: Seq<char>, c: Seq<char>)
    requires
        str_lt(a, b),
        str_lt(b, c),
    ensures
        str_lt(a, c),
    decreases a.len(),
{
    if a.len() > 0 && a[0] == b[0] && b[0] == c[0] {
        lemma_str_lt_transitive(a.drop_first(), b.drop_first(), c.drop_first());
    }
}

/// Two different strings are ordered one way or the other, and never both.
pub proof fn lemma_str_lt_total(a: Seq<char>, b: Seq<char>)
    ensures
        a != b ==> (str_lt(a, b) || str_lt(b, a)),
        !(str_lt(a, b) && str_lt(b, a)),
    decreases a.len(),
{
    if a.len() > 0 && b.len() > 0 && a[0] == b[0] {
        lemma_str_lt_total(a.drop_first(), b.drop_first());
        if a != b {
            assert(a.drop_first() != b.drop_first()) by {
                if a.drop_first() == b.drop_first() {
                    assert(a =~= seq![a[0]] + a.drop_first());
                    assert(b =~= seq![b[0]] + b.drop_first());
                }
            }
        }
    } else if a.len() == 0 && b.len() == 0 {
        assert(a =~= b);
    }
}

/// Whether `a` and `b` hold the same characters.
pub fn same_text(a: &str, b: &str) -> (r: bool)
    ensures
        r == (a@ == b@),
{
    let av = chars_of(a);
    let bv = chars_of(b);
    if av.len() != bv.len() {
        return false;
    }
    let mut i: usize = 0;
    while i < av.len()
        invariant
            av@ == a@,
            bv@ == b@,
            av@.len() == bv@.len(),
            i <= av.len(),
            forall|j: int| 0 <= j < i ==> av@[j] == bv@[j],
        decreases av.len() - i,
    {
        if av[i] != bv[i] {
            return false;
        }
        i = i + 1;
    }
    assert(av@ =~= bv@);
    true
}

/// Whether `a` comes before `b` in the order of strings.
pub fn less_than(a: &str, b: &str) -> (r: bool)
    ensures
        r == str_lt(a@, b@),
{
    let av = chars_of(a);
    let bv = chars_of(b);
    let mut i: usize = 0;
    assert(av@.skip(0) =~= av@);
    assert(bv@.skip(0) =~= bv@);
    while i < av.len() && i < bv.len() && av[i] == bv[i]
        invariant
            i <= av.len(),
            i <= bv.len(),
            str_lt(av@, bv@) == str_lt(av@.skip(i as int), bv@.skip(i as int)),
        decreases av.len() - i,
    {
        assert(av@.skip(i as int).drop_first() =~= av@.skip(i + 1));
        assert(bv@.skip(i as int).drop_first() =~= bv@.skip(i + 1));
        i = i + 1;
    }
    if i == bv.len() {
        false
    } else if i == av.len() {
        true
    } else {
        av[i] < bv[i]
    }
}

} // verus!
