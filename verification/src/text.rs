use vstd::prelude::*;

verus! {

broadcast use vstd::string::group_string_axioms;

/// The characters of a string slice, in order.
pub fn chars_of(s: &str) -> (v: Vec<char>)
    ensures
        v@ == s@,
{
    let mut v: Vec<char> = Vec::new();
    for c in it: s.chars()
        invariant
            it.seq() == s@,
            v@ == s@.take(it.index() as int),
    {
        v.push(c);
        assert(v@ =~= s@.take(it.index() + 1));
    }
    assert(v@ =~= s@);
    v
}

} // verus!

verus! {

/// Appends one character to a string (`String::push`).
#[verifier::external_body]
pub(crate) fn push_char(s: &mut String, c: char)
    ensures
        final(s)@ == old(s)@.push(c),
{
    s.push(c);
}

/// A string holding exactly the given characters.
pub fn string_from_chars(v: &Vec<char>) -> (s: String)
    ensures
        s@ == v@,
{
    let mut s = String::new();
    let mut i: usize = 0;
    while i < v.len()
        invariant
            i <= v@.len(),
            s@ == v@.take(i as int),
        decreases v@.len() - i,
    {
        push_char(&mut s, v[i]);
        assert(s@ =~= v@.take(i + 1));
        i = i + 1;
    }
    assert(v@.take(v@.len() as int) =~= v@);
    s
}

/// The Unicode `White_Space` characters, the set `char::is_whitespace`
/// recognises and `str::trim` strips.
pub open spec fn is_white_space(c: char) -> bool {
    ||| ('\u{9}' <= c && c <= '\u{d}')
    ||| c == ' '
    ||| c == '\u{85}'
    ||| c == '\u{a0}'
    ||| c == '\u{1680}'
    ||| ('\u{2000}' <= c && c <= '\u{200a}')
    ||| c == '\u{2028}'
    ||| c == '\u{2029}'
    ||| c == '\u{202f}'
    ||| c == '\u{205f}'
    ||| c == '\u{3000}'
}

/// Whether `c` is a `White_Space` character.
pub fn white_space(c: char) -> (b: bool)
    ensures
        b == is_white_space(c),
{
    ('\u{9}' <= c && c <= '\u{d}') || c == ' ' || c == '\u{85}' || c == '\u{a0}' || c == '\u{1680}'
        || ('\u{2000}' <= c && c <= '\u{200a}') || c == '\u{2028}' || c == '\u{2029}'
        || c == '\u{202f}' || c == '\u{205f}' || c == '\u{3000}'
}

/// A text is blank when trimming it leaves nothing: every character is
/// white space.
pub open spec fn is_blank_text(s: Seq<char>) -> bool {
    forall|i: int| 0 <= i < s.len() ==> is_white_space(#[trigger] s[i])
}

/// Whether `s.trim()` is empty.
pub fn is_blank(s: &str) -> (b: bool)
    ensures
        b == is_blank_text(s@),
{
    let v = chars_of(s);
    let mut i: usize = 0;
    while i < v.len()
        invariant
            v@ == s@,
            i <= v@.len(),
            forall|j: int| 0 <= j < i ==> is_white_space(#[trigger] s@[j]),
        decreases v@.len() - i,
    {
        if !white_space(v[i]) {
            return false;
        }
        i = i + 1;
    }
    true
}

/// Number of leading white-space characters.
pub open spec fn leading_space(s: Seq<char>) -> int
    decreases s.len(),
{
    if s.len() > 0 && is_white_space(s[0]) { 1 + leading_space(s.drop_first()) } else { 0 }
}

/// Number of trailing white-space characters.
pub open spec fn trailing_space(s: Seq<char>) -> int
    decreases s.len(),
{
    if s.len() > 0 && is_white_space(s.last()) { 1 + trailing_space(s.drop_last()) } else { 0 }
}

/// `str::trim`: the text without its leading and trailing white space.
pub open spec fn trim_text(s: Seq<char>) -> Seq<char> {
    let a = leading_space(s);
    let rest = s.skip(a);
    rest.take(rest.len() - trailing_space(rest))
}

proof fn lemma_leading_space_bounds(s: Seq<char>)
    ensures
        0 <= leading_space(s) <= s.len(),
    decreases s.len(),
{
    if s.len() > 0 && is_white_space(s[0]) {
        lemma_leading_space_bounds(s.drop_first());
    }
}

proof fn lemma_trailing_space_bounds(s: Seq<char>)
    ensures
        0 <= trailing_space(s) <= s.len(),
    decreases s.len(),
{
    if s.len() > 0 && is_white_space(s.last()) {
        lemma_trailing_space_bounds(s.drop_last());
    }
}

/// The text without its leading and trailing white space (`str::trim`).
pub fn trimmed(s: &str) -> (t: String)
    ensures
        t@ == trim_text(s@),
{
    let v = chars_of(s);
    let n = v.len();
    let mut a: usize = 0;
    assert(s@.skip(0) =~= s@);
    while a < n && white_space(v[a])
        invariant
            v@ == s@,
            n == v@.len(),
            a <= n,
            leading_space(s@) == a + leading_space(s@.skip(a as int)),
        decreases n - a,
    {
        assert(s@.skip(a as int).drop_first() =~= s@.skip(a + 1));
        a = a + 1;
    }
    proof {
        if a < n {
            assert(s@.skip(a as int)[0] == s@[a as int]);
        }
        assert(leading_space(s@) == a);
        lemma_leading_space_bounds(s@);
    }
    let ghost rest = s@.skip(a as int);
    let mut b: usize = n;
    assert(rest.take(n - a) =~= rest);
    while b > a && white_space(v[b - 1])
        invariant
            v@ == s@,
            n == v@.len(),
            a <= b <= n,
            rest == s@.skip(a as int),
            trailing_space(rest) == (n - b) + trailing_space(rest.take(b - a)),
        decreases b - a,
    {
        assert(rest.take(b - a).drop_last() =~= rest.take(b - 1 - a));
        assert(rest.take(b - a).last() == s@[b - 1]);
        b = b - 1;
    }
    proof {
        if b > a {
            assert(rest.take(b - a).last() == s@[b - 1]);
        }
        assert(trailing_space(rest.take(b - a)) == 0);
        assert(rest.take(rest.len() - trailing_space(rest)) =~= s@.subrange(a as int, b as int));
    }
    let mut out: Vec<char> = Vec::new();
    let mut i: usize = a;
    while i < b
        invariant
            v@ == s@,
            a <= i <= b <= n,
            n == v@.len(),
            out@ == s@.subrange(a as int, i as int),
        decreases b - i,
    {
        out.push(v[i]);
        assert(out@ =~= s@.subrange(a as int, i + 1));
        i = i + 1;
    }
    string_from_chars(&out)
}

/// `needle` occurs in `hay` starting at position `i`.
pub open spec fn occurs_at(hay: Seq<char>, needle: Seq<char>, i: int) -> bool {
    0 <= i && i + needle.len() <= hay.len() && hay.subrange(i, i + needle.len()) == needle
}

/// `needle` occurs somewhere in `hay` (`str::contains` with a string pattern).
pub open spec fn contains_text(hay: Seq<char>, needle: Seq<char>) -> bool {
    exists|i: int| occurs_at(hay, needle, i)
}

/// `hay` begins with `prefix` (`str::starts_with`).
pub open spec fn starts_with_text(hay: Seq<char>, prefix: Seq<char>) -> bool {
    occurs_at(hay, prefix, 0)
}

/// Whether `needle` occurs in `hay` at position `i`.
pub fn matches_at(hay: &Vec<char>, needle: &Vec<char>, i: usize) -> (b: bool)
    ensures
        b == occurs_at(hay@, needle@, i as int),
{
    if i > hay.len() || needle.len() > hay.len() - i {
        return false;
    }
    let mut j: usize = 0;
    while j < needle.len()
        invariant
            i + needle@.len() <= hay@.len(),
            hay@.len() <= usize::MAX,
            j <= needle@.len(),
            forall|k: int| 0 <= k < j ==> hay@[i + k] == needle@[k],
        decreases needle@.len() - j,
    {
        if hay[i + j] != needle[j] {
            assert(hay@.subrange(i as int, i + needle@.len())[j as int] != needle@[j as int]);
            return false;
        }
        j = j + 1;
    }
    assert(hay@.subrange(i as int, i + needle@.len()) =~= needle@);
    true
}

/// Whether `needle` occurs anywhere in `hay`.
pub fn contains(hay: &str, needle: &str) -> (b: bool)
    ensures
        b == contains_text(hay@, needle@),
{
    let h = chars_of(hay);
    let n = chars_of(needle);
    let mut i: usize = 0;
    loop
        invariant
            h@ == hay@,
            n@ == needle@,
            i <= h@.len(),
            forall|k: int| 0 <= k < i ==> !occurs_at(hay@, needle@, k),
        decreases h@.len() - i,
    {
        if matches_at(&h, &n, i) {
            return true;
        }
        if i == h.len() {
            assert forall|k: int| !occurs_at(hay@, needle@, k) by {
                if occurs_at(hay@, needle@, k) {
                    assert(k <= hay@.len());
                }
            }
            return false;
        }
        i = i + 1;
    }
}

/// Whether `hay` begins with `prefix`.
pub fn starts_with(hay: &str, prefix: &str) -> (b: bool)
    ensures
        b == starts_with_text(hay@, prefix@),
{
    let h = chars_of(hay);
    let p = chars_of(prefix);
    matches_at(&h, &p, 0)
}

/// The part of `s` after the last `sep` (all of `s` when there is none):
/// `s.split(sep).last()`.
pub open spec fn after_last(s: Seq<char>, sep: char) -> Seq<char>
    decreases s.len(),
{
    if s.len() == 0 {
        s
    } else if s.last() == sep {
        Seq::empty()
    } else {
        after_last(s.drop_last(), sep).push(s.last())
    }
}

/// The part of `s` before the first `sep` (all of `s` when there is none):
/// `s.split(sep).next()`.
pub open spec fn before_first(s: Seq<char>, sep: char) -> Seq<char>
    decreases s.len(),
{
    if s.len() == 0 || s[0] == sep {
        Seq::empty()
    } else {
        seq![s[0]] + before_first(s.drop_first(), sep)
    }
}

/// The characters after the last `sep`.
pub fn chars_after_last(s: &Vec<char>, sep: char) -> (r: Vec<char>)
    ensures
        r@ == after_last(s@, sep),
{
    let mut k: usize = s.len();
    assert(s@.take(s@.len() as int) =~= s@);
    assert(s@ + s@.skip(s@.len() as int) =~= s@);
    while k > 0 && s[k - 1] != sep
        invariant
            k <= s@.len(),
            after_last(s@, sep) == after_last(s@.take(k as int), sep) + s@.skip(k as int),
        decreases k,
    {
        let ghost t = s@.take(k as int);
        assert(t.drop_last() =~= s@.take(k - 1));
        assert(t.last() == s@[k - 1]);
        assert(s@.skip(k - 1) =~= seq![s@[k - 1]] + s@.skip(k as int));
        assert(after_last(t.drop_last(), sep).push(t.last()) + s@.skip(k as int)
            =~= after_last(t.drop_last(), sep) + s@.skip(k - 1));
        k = k - 1;
    }
    proof {
        let t = s@.take(k as int);
        if k > 0 {
            assert(t.last() == s@[k - 1]);
        }
        assert(after_last(t, sep) =~= Seq::<char>::empty());
        assert(after_last(s@, sep) =~= s@.skip(k as int));
    }
    let mut r: Vec<char> = Vec::new();
    let mut i: usize = k;
    while i < s.len()
        invariant
            k <= i <= s@.len(),
            r@ == s@.subrange(k as int, i as int),
        decreases s@.len() - i,
    {
        r.push(s[i]);
        assert(r@ =~= s@.subrange(k as int, i + 1));
        i = i + 1;
    }
    assert(r@ =~= s@.skip(k as int));
    r
}

/// The characters before the first `sep`.
pub fn chars_before_first(s: &Vec<char>, sep: char) -> (r: Vec<char>)
    ensures
        r@ == before_first(s@, sep),
{
    let mut r: Vec<char> = Vec::new();
    let mut i: usize = 0;
    assert(s@.skip(0) =~= s@);
    assert(s@.take(0) + before_first(s@, sep) =~= before_first(s@, sep));
    while i < s.len() && s[i] != sep
        invariant
            i <= s@.len(),
            r@ == s@.take(i as int),
            before_first(s@, sep) == s@.take(i as int) + before_first(s@.skip(i as int), sep),
        decreases s@.len() - i,
    {
        let ghost rest = s@.skip(i as int);
        assert(rest[0] == s@[i as int]);
        assert(rest.drop_first() =~= s@.skip(i + 1));
        assert(s@.take(i as int) + (seq![s@[i as int]] + before_first(s@.skip(i + 1), sep))
            =~= s@.take(i + 1) + before_first(s@.skip(i + 1), sep));
        r.push(s[i]);
        assert(r@ =~= s@.take(i + 1));
        i = i + 1;
    }
    proof {
        let rest = s@.skip(i as int);
        if i < s@.len() {
            assert(rest[0] == s@[i as int]);
        }
        assert(before_first(rest, sep) =~= Seq::<char>::empty());
        assert(before_first(s@, sep) =~= s@.take(i as int));
    }
    r
}

} // verus!

verus! {

/// An ASCII decimal digit.
pub open spec fn is_digit(c: char) -> bool {
    '0' <= c && c <= '9'
}

/// The value of an ASCII decimal digit.
pub open spec fn digit_value(c: char) -> int {
    c as int - '0' as int
}

/// The digit character for `d < 10`.
pub open spec fn digit_char(d: int) -> char {
    (d + '0' as int) as char
}

/// The value of a string of decimal digits, most significant first.
pub open spec fn digits_value(s: Seq<char>) -> int
    decreases s.len(),
{
    if s.len() == 0 { 0 } else { digits_value(s.drop_last()) * 10 + digit_value(s.last()) }
}

/// Every character is a decimal digit.
pub open spec fn all_digits(s: Seq<char>) -> bool {
    forall|i: int| 0 <= i < s.len() ==> is_digit(#[trigger] s[i])
}

/// The digits that `u64::from_str` reads: the text without one leading `+`.
pub open spec fn unsigned_digits(s: Seq<char>) -> Seq<char> {
    if s.len() > 0 && s[0] == '+' { s.drop_first() } else { s }
}

/// What `s.parse::<u64>()` gives: the value of a non-empty run of decimal
/// digits (after an optional `+`) that fits in a `u64`, and nothing otherwise.
pub open spec fn parse_u64_text(s: Seq<char>) -> Option<u64> {
    let d = unsigned_digits(s);
    if d.len() > 0 && all_digits(d) && digits_value(d) <= u64::MAX {
        Some(digits_value(d) as u64)
    } else {
        None
    }
}

/// The shortest decimal spelling of `n`.
pub open spec fn decimal(n: nat) -> Seq<char>
    decreases n,
{
    if n < 10 { seq![digit_char(n as int)] } else { decimal(n / 10).push(digit_char((n % 10) as int)) }
}

proof fn lemma_digits_value_nonneg(s: Seq<char>)
    requires
        all_digits(s),
    ensures
        digits_value(s) >= 0,
    decreases s.len(),
{
    if s.len() > 0 {
        assert(all_digits(s.drop_last())) by {
            assert forall|i: int| 0 <= i < s.drop_last().len() implies is_digit(#[trigger] s.drop_last()[i]) by {
                assert(s.drop_last()[i] == s[i]);
            }
        }
        lemma_digits_value_nonneg(s.drop_last());
        assert(is_digit(s[s.len() - 1]));
    }
}

/// A longer run of digits is worth at least as much as any prefix of it.
proof fn lemma_digits_value_prefix(s: Seq<char>, k: int)
    requires
        all_digits(s),
        0 <= k <= s.len(),
    ensures
        digits_value(s.take(k)) <= digits_value(s),
    decreases s.len() - k,
{
    if k < s.len() {
        lemma_digits_value_prefix(s, k + 1);
        let t = s.take(k + 1);
        assert(t.drop_last() =~= s.take(k));
        assert(is_digit(t.last())) by {
            assert(t.last() == s[k]);
        }
        assert(all_digits(s.take(k))) by {
            assert forall|i: int| 0 <= i < s.take(k).len() implies is_digit(#[trigger] s.take(k)[i]) by {
                assert(s.take(k)[i] == s[i]);
            }
        }
        lemma_digits_value_nonneg(s.take(k));
    } else {
        assert(s.take(k) =~= s);
    }
}

/// `s.parse::<u64>()`.
pub fn parse_u64(s: &str) -> (r: Option<u64>)
    ensures
        r == parse_u64_text(s@),
{
    let v = chars_of(s);
    let mut i: usize = 0;
    if v.len() > 0 && v[0] == '+' {
        i = 1;
    }
    let ghost d = unsigned_digits(s@);
    assert(d =~= s@.skip(i as int));
    if i == v.len() {
        return None;
    }
    let start = i;
    let mut value: u64 = 0;
    while i < v.len()
        invariant
            v@ == s@,
            d == unsigned_digits(s@),
            d == s@.skip(start as int),
            start < v@.len(),
            start <= i <= v@.len(),
            all_digits(d.take(i - start)),
            value == digits_value(d.take(i - start)),
        decreases v@.len() - i,
    {
        let c = v[i];
        let ghost t = d.take(i + 1 - start);
        assert(t.drop_last() =~= d.take(i - start));
        assert(t.last() == c);
        if c < '0' || c > '9' {
            assert(d[i - start] == c);
            assert(!is_digit(d[i - start]));
            assert(!all_digits(d));
            return None;
        }
        let dv = (c as u32 - '0' as u32) as u64;
        assert(dv == digit_value(c));
        assert(all_digits(t)) by {
            assert forall|j: int| 0 <= j < t.len() implies is_digit(#[trigger] t[j]) by {
                if j < t.len() - 1 {
                    assert(t[j] == d.take(i - start)[j]);
                }
            }
        }
        if value > (u64::MAX - dv) / 10 {
            proof {
                assert(value * 10 + dv > u64::MAX) by (nonlinear_arith)
                    requires value > (u64::MAX - dv) / 10, dv <= 9;
                assert(digits_value(t) == value * 10 + dv);
                assert(digits_value(t) > u64::MAX);
                if all_digits(d) {
                    lemma_digits_value_prefix(d, i + 1 - start);
                    assert(digits_value(d) > u64::MAX);
                }
                assert(d.len() > 0);
                assert(parse_u64_text(s@).is_none());
            }
            return None;
        }
        assert(value * 10 + dv <= u64::MAX) by (nonlinear_arith)
            requires value <= (u64::MAX - dv) / 10, dv <= 9;
        value = value * 10 + dv;
        i = i + 1;
    }
    assert(d.take(i - start) =~= d);
    Some(value)
}

/// The digit character for a value below ten.
pub fn digit_to_char(d: u64) -> (c: char)
    requires
        d < 10,
    ensures
        c == digit_char(d as int),
{
    ((d as u8) + 48u8) as char
}

/// The decimal spelling of `n` (`n.to_string()`).
pub fn decimal_string(n: u64) -> (s: String)
    ensures
        s@ == decimal(n as nat),
    decreases n,
{
    if n < 10 {
        let mut s = String::new();
        push_char(&mut s, digit_to_char(n));
        assert(s@ =~= decimal(n as nat));
        s
    } else {
        let mut s = decimal_string(n / 10);
        push_char(&mut s, digit_to_char(n % 10));
        s
    }
}

} // verus!

verus! {

/// `hay` with every occurrence of the non-empty `pat` removed, scanning from
/// the left without overlaps (`str::replace(pat, "")`).
pub open spec fn remove_all(hay: Seq<char>, pat: Seq<char>) -> Seq<char>
    decreases hay.len(),
{
    if pat.len() == 0 || hay.len() < pat.len() {
        hay
    } else if hay.take(pat.len() as int) == pat {
        remove_all(hay.skip(pat.len() as int), pat)
    } else {
        seq![hay[0]] + remove_all(hay.drop_first(), pat)
    }
}

/// `hay` with every occurrence of the non-empty `pat` replaced by `with`,
/// scanning from the left without overlaps (`str::replace`).
pub open spec fn replace_all(hay: Seq<char>, pat: Seq<char>, with: Seq<char>) -> Seq<char>
    decreases hay.len(),
{
    if pat.len() == 0 || hay.len() < pat.len() {
        hay
    } else if hay.take(pat.len() as int) == pat {
        with + replace_all(hay.skip(pat.len() as int), pat, with)
    } else {
        seq![hay[0]] + replace_all(hay.drop_first(), pat, with)
    }
}

/// `hay.replace(pat, with)` for a non-empty pattern.
pub fn replace_text(hay: &str, pat: &str, with: &str) -> (r: String)
    requires
        pat@.len() > 0,
    ensures
        r@ == replace_all(hay@, pat@, with@),
{
    let h = chars_of(hay);
    let p = chars_of(pat);
    let w = chars_of(with);
    let mut out: Vec<char> = Vec::new();
    let mut i: usize = 0;
    assert(h@.skip(0) =~= h@);
    assert(out@ + replace_all(h@.skip(0), pat@, with@) =~= replace_all(hay@, pat@, with@));
    while i < h.len()
        invariant
            h@ == hay@,
            p@ == pat@,
            w@ == with@,
            p@.len() > 0,
            i <= h@.len(),
            replace_all(hay@, pat@, with@) == out@ + replace_all(h@.skip(i as int), pat@, with@),
        decreases h@.len() - i,
    {
        let ghost rest = h@.skip(i as int);
        if matches_at(&h, &p, i) {
            assert(rest.take(p@.len() as int) =~= h@.subrange(i as int, i + p@.len()));
            assert(rest.skip(p@.len() as int) =~= h@.skip(i + p@.len()));
            let ghost before = out@;
            let mut k: usize = 0;
            while k < w.len()
                invariant
                    w@ == with@,
                    k <= w@.len(),
                    out@ == before + w@.take(k as int),
                decreases w@.len() - k,
            {
                out.push(w[k]);
                assert(out@ =~= before + w@.take(k + 1));
                k = k + 1;
            }
            assert(w@.take(w@.len() as int) =~= w@);
            assert(before + (with@ + replace_all(h@.skip(i + p@.len()), pat@, with@)) =~= out@ + replace_all(
                h@.skip(i + p@.len()),
                pat@,
                with@,
            ));
            i = i + p.len();
        } else {
            if h.len() - i >= p.len() {
                assert(rest.take(p@.len() as int) =~= h@.subrange(i as int, i + p@.len()));
            }
            assert(rest[0] == h@[i as int]);
            assert(rest.drop_first() =~= h@.skip(i + 1));
            out.push(h[i]);
            assert(out@ + replace_all(h@.skip(i + 1), pat@, with@) =~= (out@.drop_last() + (seq![h@[i as int]]
                + replace_all(h@.skip(i + 1), pat@, with@))));
            i = i + 1;
        }
    }
    assert(h@.skip(i as int) =~= Seq::<char>::empty());
    assert(out@ + Seq::<char>::empty() =~= out@);
    string_from_chars(&out)
}

proof fn lemma_remove_is_replace_by_nothing(hay: Seq<char>, pat: Seq<char>)
    ensures
        replace_all(hay, pat, Seq::empty()) == remove_all(hay, pat),
    decreases hay.len(),
{
    if pat.len() == 0 || hay.len() < pat.len() {
    } else if hay.take(pat.len() as int) == pat {
        lemma_remove_is_replace_by_nothing(hay.skip(pat.len() as int), pat);
        assert(Seq::<char>::empty() + replace_all(hay.skip(pat.len() as int), pat, Seq::empty()) =~= remove_all(
            hay.skip(pat.len() as int),
            pat,
        ));
    } else {
        lemma_remove_is_replace_by_nothing(hay.drop_first(), pat);
    }
}

/// `hay.replace(pat, "")` for a non-empty pattern.
pub fn remove_all_text(hay: &str, pat: &str) -> (r: String)
    requires
        pat@.len() > 0,
    ensures
        r@ == remove_all(hay@, pat@),
{
    let nothing = "";
    proof {
        reveal_strlit("");
        assert(nothing@ =~= Seq::<char>::empty());
        lemma_remove_is_replace_by_nothing(hay@, pat@);
    }
    replace_text(hay, pat, nothing)
}

} // verus!

verus! {

proof fn lemma_digit_char(k: int)
    requires
        0 <= k < 10,
    ensures
        digit_value(digit_char(k)) == k,
        is_digit(digit_char(k)),
{
    assert(digit_char(k) as int == k + 48);
}

proof fn lemma_decimal_digits(n: nat)
    ensures
        decimal(n).len() > 0,
        all_digits(decimal(n)),
        digits_value(decimal(n)) == n,
        decimal(n)[0] != '+',
    decreases n,
{
    lemma_digit_char((n % 10) as int);
    if n < 10 {
        lemma_digit_char(n as int);
        let d = decimal(n);
        assert(d.drop_last() =~= Seq::<char>::empty());
        assert(digits_value(Seq::<char>::empty()) == 0);
        assert(d.last() == digit_char(n as int));
        assert(digits_value(d) == digits_value(d.drop_last()) * 10 + digit_value(d.last()));
    }
    if n >= 10 {
        lemma_decimal_digits(n / 10);
        let d = decimal(n);
        assert(n == (n / 10) * 10 + n % 10);
        assert(d.last() == digit_char((n % 10) as int));
        assert(digits_value(d) == digits_value(d.drop_last()) * 10 + digit_value(d.last()));
        assert(d.drop_last() =~= decimal(n / 10));
        assert forall|i: int| 0 <= i < d.len() implies is_digit(#[trigger] d[i]) by {
            if i < d.len() - 1 {
                assert(d[i] == decimal(n / 10)[i]);
            }
        }
        assert(d[0] == decimal(n / 10)[0]);
    }
}

/// Law of the decimal text: parsing the decimal spelling of a number gives
/// the number back.
pub proof fn lemma_parse_decimal_round_trip(n: u64)
    ensures
        parse_u64_text(decimal(n as nat)) == Some(n),
{
    lemma_decimal_digits(n as nat);
}

} // verus!
