//! Text building blocks: decimal numerals, quoting, joining, searching and
//! replacing, each with a model over sequences of characters.

use vstd::prelude::*;
use vstd::string::*;

verus! {

/// `String::push` of the standard library appends one character to the end of
/// the string and leaves what was there untouched.
pub assume_specification[ String::push ](s: &mut String, ch: char)
    ensures
        final(s)@ == old(s)@.push(ch),
;

/// `==` on string slices compares their contents, character by character.
pub assume_specification[ <str as PartialEq>::eq ](a: &str, b: &str) -> (r: bool)
    ensures
        r == (a@ == b@),
;

/// What `str::to_lowercase` returns for a string with the given characters.
pub uninterp spec fn lowercase_of(s: Seq<char>) -> Seq<char>;

/// `str::to_lowercase` of the standard library: the lowercase equivalent of
/// the string, by the Unicode rules that the standard library follows. The
/// contract only gives that text a name.
#[verifier::external_body]
fn to_lowercase(s: &str) -> (r: String)
    ensures
        r@ == lowercase_of(s@),
{
    s.to_lowercase()
}

// ---------------------------------------------------------------------------
// Models
// ---------------------------------------------------------------------------
/// The character of the decimal digit `d`.
pub open spec fn digit_char(d: int) -> char {
    if d == 0 {
        '0'
    } else if d == 1 {
        '1'
    } else if d == 2 {
        '2'
    } else if d == 3 {
        '3'
    } else if d == 4 {
        '4'
    } else if d == 5 {
        '5'
    } else if d == 6 {
        '6'
    } else if d == 7 {
        '7'
    } else if d == 8 {
        '8'
    } else {
        '9'
    }
}

/// The decimal numeral of `n`, without leading zeros (`0` is "0").
pub open spec fn decimal_digits(n: nat) -> Seq<char>
    decreases n,
{
    if n < 10 {
        seq![digit_char(n as int)]
    } else {
        decimal_digits(n / 10).push(digit_char((n % 10) as int))
    }
}

/// The decimal numeral of `v`, with a leading `-` for negative numbers.
pub open spec fn int_text(v: int) -> Seq<char> {
    if v < 0 {
        seq!['-'] + decimal_digits((-v) as nat)
    } else {
        decimal_digits(v as nat)
    }
}

/// `s` with every occurrence of `q` written twice.
pub open spec fn doubled(s: Seq<char>, q: char) -> Seq<char>
    decreases s.len(),
{
    if s.len() == 0 {
        Seq::empty()
    } else if s.last() == q {
        doubled(s.drop_last(), q).push(q).push(q)
    } else {
        doubled(s.drop_last(), q).push(s.last())
    }
}

/// `s` between two `q`, with every `q` inside it doubled.
pub open spec fn quoted(s: Seq<char>, q: char) -> Seq<char> {
    seq![q] + doubled(s, q) + seq![q]
}

/// The parts in order, with `sep` between each two neighbours.
pub open spec fn joined(parts: Seq<Seq<char>>, sep: Seq<char>) -> Seq<char>
    decreases parts.len(),
{
    if parts.len() == 0 {
        Seq::empty()
    } else if parts.len() == 1 {
        parts[0]
    } else {
        joined(parts.drop_last(), sep) + sep + parts.last()
    }
}

/// The views of a vector of strings.
pub open spec fn views(parts: Seq<String>) -> Seq<Seq<char>> {
    Seq::new(parts.len(), |i: int| parts[i]@)
}

/// The view of an optional string.
pub open spec fn text_view(s: Option<String>) -> Option<Seq<char>> {
    match s {
        Some(t) => Some(t@),
        None => None,
    }
}

/// The lower-case letter of an ASCII capital, and any other character as it
/// is.
pub open spec fn ascii_lowered(c: char) -> char {
    if 'A' <= c <= 'Z' {
        ((c as int) + 32) as char
    } else {
        c
    }
}

/// A name in lower case: a name of ASCII characters with its capitals turned
/// into lower-case letters, any other name as `str::to_lowercase` gives it.
pub open spec fn lowered(s: Seq<char>) -> Seq<char> {
    if vstd::utf8::is_ascii_chars(s) {
        Seq::new(s.len(), |i: int| ascii_lowered(s[i]))
    } else {
        lowercase_of(s)
    }
}

/// `needle` stands in `hay` at position `at`.
pub open spec fn occurs_at(hay: Seq<char>, needle: Seq<char>, at: int) -> bool {
    &&& 0 <= at
    &&& at + needle.len() <= hay.len()
    &&& hay.subrange(at, at + needle.len()) == needle
}

/// `needle` stands somewhere in `hay`.
pub open spec fn has_substring(hay: Seq<char>, needle: Seq<char>) -> bool {
    exists|at: int| occurs_at(hay, needle, at)
}

/// `hay` with every occurrence of the non-empty `from` replaced by `to`,
/// found from left to right, no occurrence overlapping the one before; with
/// an empty `from`, `hay` itself.
pub open spec fn replaced(hay: Seq<char>, from: Seq<char>, to: Seq<char>) -> Seq<char>
    decreases hay.len(),
{
    if from.len() == 0 || hay.len() < from.len() {
        hay
    } else if occurs_at(hay, from, 0) {
        to + replaced(hay.skip(from.len() as int), from, to)
    } else {
        seq![hay[0]] + replaced(hay.skip(1), from, to)
    }
}

/// `a` comes strictly before `b` in dictionary order, characters compared by
/// code point.
pub open spec fn text_before(a: Seq<char>, b: Seq<char>) -> bool
    decreases a.len(),
{
    if b.len() == 0 {
        false
    } else if a.len() == 0 {
        true
    } else if a[0] != b[0] {
        (a[0] as int) < (b[0] as int)
    } else {
        text_before(a.skip(1), b.skip(1))
    }
}

// ---------------------------------------------------------------------------
// Executable functions
// ---------------------------------------------------------------------------
/// Whether two strings hold the same characters.
pub fn same_text(a: &str, b: &str) -> (r: bool)
    ensures
        r == (a@ == b@),
{
    a.eq(b)
}

/// The characters of `s`, in order.
pub fn chars_of(s: &str) -> (out: Vec<char>)
    ensures
        out@ == s@,
{
    let mut out: Vec<char> = Vec::new();
    for c in it: s.chars()
        invariant
            out@ == it.seq().take(it.index() as int),
            it.seq() == s@,
    {
        out.push(c);
    }
    out
}

fn digit_of(d: u64) -> (c: char)
    requires
        d < 10,
    ensures
        c == digit_char(d as int),
{
    if d == 0 {
        '0'
    } else if d == 1 {
        '1'
    } else if d == 2 {
        '2'
    } else if d == 3 {
        '3'
    } else if d == 4 {
        '4'
    } else if d == 5 {
        '5'
    } else if d == 6 {
        '6'
    } else if d == 7 {
        '7'
    } else if d == 8 {
        '8'
    } else {
        '9'
    }
}

/// Appends the decimal numeral of `n` to `out`.
pub fn push_unsigned(out: &mut String, n: u64)
    ensures
        final(out)@ == old(out)@ + decimal_digits(n as nat),
    decreases n,
{
    if n >= 10 {
        push_unsigned(out, n / 10);
    }
    out.push(digit_of(n % 10));
}

/// Appends the decimal numeral of `v` to `out`.
pub fn push_signed(out: &mut String, v: i64)
    ensures
        final(out)@ == old(out)@ + int_text(v as int),
{
    if v < 0 {
        out.push('-');
        let below: u64 = (-(v + 1)) as u64;
        push_unsigned(out, below + 1);
    } else {
        push_unsigned(out, v as u64);
    }
}

/// The decimal numeral of `n`.
pub fn unsigned_text(n: u64) -> (r: String)
    ensures
        r@ == decimal_digits(n as nat),
{
    let mut r = String::new();
    push_unsigned(&mut r, n);
    r
}

/// The decimal numeral of `v`.
pub fn signed_text(v: i64) -> (r: String)
    ensures
        r@ == int_text(v as int),
{
    let mut r = String::new();
    push_signed(&mut r, v);
    r
}

/// Appends `s` to `out`, writing every `q` in it twice.
pub fn push_doubled(out: &mut String, s: &str, q: char)
    ensures
        final(out)@ == old(out)@ + doubled(s@, q),
{
    for c in it: s.chars()
        invariant
            it.seq() == s@,
            out@ == old(out)@ + doubled(s@.take(it.index() as int), q),
    {
        proof {
            let k = it.index() as int;
            assert(s@.take(k + 1).drop_last() == s@.take(k));
            assert(s@.take(k + 1).last() == c);
        }
        if c == q {
            out.push(q);
            out.push(q);
        } else {
            out.push(c);
        }
    }
    proof {
        assert(s@.take(s@.len() as int) == s@);
    }
}

/// `s` between two `q`, every `q` inside it doubled.
pub fn quote_with(s: &str, q: char) -> (r: String)
    ensures
        r@ == quoted(s@, q),
{
    let mut r = String::new();
    r.push(q);
    push_doubled(&mut r, s, q);
    r.push(q);
    r
}

/// Appends the parts to `out`, with `sep` between each two neighbours.
pub fn push_joined(out: &mut String, parts: &Vec<String>, sep: &str)
    ensures
        final(out)@ == old(out)@ + joined(views(parts@), sep@),
{
    let mut i: usize = 0;
    while i < parts.len()
        invariant
            i <= parts.len(),
            out@ == old(out)@ + joined(views(parts@).take(i as int), sep@),
        decreases parts.len() - i,
    {
        proof {
            let all = views(parts@);
            assert(all.take(i + 1).drop_last() == all.take(i as int));
            assert(all.take(i + 1).last() == parts@[i as int]@);
            if i > 0 {
                assert(all.take(i as int).len() > 0);
            } else {
                assert(all.take(0).len() == 0);
                assert(all.take(1)[0] == parts@[0]@);
            }
        }
        if i > 0 {
            out.append(sep);
        }
        out.append(parts[i].as_str());
        i = i + 1;
    }
    proof {
        assert(views(parts@).take(parts@.len() as int) == views(parts@));
    }
}

/// The parts in order, with `sep` between each two neighbours.
pub fn join(parts: &Vec<String>, sep: &str) -> (r: String)
    ensures
        r@ == joined(views(parts@), sep@),
{
    let mut r = String::new();
    push_joined(&mut r, parts, sep);
    r
}

fn lower_ascii(c: char) -> (r: char)
    requires
        '\0' <= c <= '\u{7f}',
    ensures
        r == ascii_lowered(c),
{
    if c >= 'A' && c <= 'Z' {
        let code: u8 = c as u8;
        (code + 32) as char
    } else {
        c
    }
}

/// `s` in lower case.
pub fn lower(s: &str) -> (r: String)
    ensures
        r@ == lowered(s@),
{
    if !s.is_ascii() {
        return to_lowercase(s);
    }
    let mut r = String::new();
    for c in it: s.chars()
        invariant
            it.seq() == s@,
            vstd::utf8::is_ascii_chars(s@),
            r@ == Seq::new(it.index() as nat, |i: int| ascii_lowered(s@[i])),
    {
        let ghost before = r@;
        assert('\0' <= s@[it.index() as int] <= '\u{7f}');
        r.push(lower_ascii(c));
        assert(r@ =~= Seq::new((it.index() + 1) as nat, |i: int| ascii_lowered(s@[i])));
    }
    r
}

/// Whether the character `c` stands in `s`.
pub fn contains_char(s: &str, c: char) -> (r: bool)
    ensures
        r == s@.contains(c),
{
    for d in it: s.chars()
        invariant
            it.seq() == s@,
            forall|k: int| 0 <= k < it.index() ==> s@[k] != c,
    {
        if d == c {
            assert(s@[it.index() as int] == c);
            return true;
        }
    }
    false
}

/// Whether `needle` stands in `hay` at position `at`.
fn matches_at(hay: &Vec<char>, needle: &Vec<char>, at: usize) -> (r: bool)
    requires
        at + needle.len() <= hay.len(),
    ensures
        r == occurs_at(hay@, needle@, at as int),
{
    let mut k: usize = 0;
    while k < needle.len()
        invariant
            k <= needle.len(),
            at + needle.len() <= hay.len(),
            hay@.subrange(at as int, at + k) == needle@.take(k as int),
        decreases needle.len() - k,
    {
        if hay[at + k] != needle[k] {
            proof {
                let sub = hay@.subrange(at as int, at + needle.len());
                assert(sub[k as int] != needle@[k as int]);
            }
            return false;
        }
        proof {
            assert(hay@.subrange(at as int, at + k + 1) == hay@.subrange(at as int, at + k).push(
                hay@[at + k],
            ));
            assert(needle@.take(k + 1) == needle@.take(k as int).push(needle@[k as int]));
        }
        k = k + 1;
    }
    proof {
        assert(needle@.take(needle@.len() as int) == needle@);
    }
    true
}

/// Whether `needle` stands somewhere in `hay`.
pub fn contains_text(hay: &str, needle: &str) -> (r: bool)
    ensures
        r == has_substring(hay@, needle@),
{
    let h = chars_of(hay);
    let n = chars_of(needle);
    if n.len() > h.len() {
        return false;
    }
    let last: usize = h.len() - n.len();
    let mut at: usize = 0;
    loop
        invariant
            at <= last,
            last == h.len() - n.len(),
            n.len() <= h.len(),
            h@ == hay@,
            n@ == needle@,
            forall|j: int| 0 <= j < at ==> !occurs_at(hay@, needle@, j),
        decreases last - at,
    {
        if matches_at(&h, &n, at) {
            return true;
        }
        if at == last {
            return false;
        }
        at = at + 1;
    }
}

/// A name of ASCII characters without a capital is its own lower case.
pub proof fn lemma_lower_case_stays(s: Seq<char>)
    requires
        vstd::utf8::is_ascii_chars(s),
        forall|i: int| 0 <= i < s.len() ==> !('A' <= #[trigger] s[i] <= 'Z'),
    ensures
        lowered(s) == s,
{
    assert(lowered(s) =~= s);
}

/// Lower case says nothing of capitals: two names of ASCII characters that
/// differ only in the case of their letters have the same lower case.
pub proof fn lemma_case_does_not_matter(a: Seq<char>, b: Seq<char>)
    requires
        vstd::utf8::is_ascii_chars(a),
        vstd::utf8::is_ascii_chars(b),
        a.len() == b.len(),
        forall|i: int| 0 <= i < a.len() ==> ascii_lowered(#[trigger] a[i]) == ascii_lowered(b[i]),
    ensures
        lowered(a) == lowered(b),
{
    assert(lowered(a) =~= lowered(b));
}

proof fn lemma_replaced_step(hay: Seq<char>, from: Seq<char>, to: Seq<char>, at: int)
    requires
        from.len() > 0,
        0 <= at <= hay.len(),
    ensures
        at + from.len() > hay.len() ==> replaced(hay.skip(at), from, to) == hay.skip(at),
        occurs_at(hay, from, at) ==> replaced(hay.skip(at), from, to) == to + replaced(
            hay.skip(at + from.len()),
            from,
            to,
        ),
        at + from.len() <= hay.len() && !occurs_at(hay, from, at) ==> replaced(
            hay.skip(at),
            from,
            to,
        ) == seq![hay[at]] + replaced(hay.skip(at + 1), from, to),
{
    let rest = hay.skip(at);
    if at + from.len() <= hay.len() {
        assert(rest.subrange(0, from.len() as int) == hay.subrange(at, at + from.len()));
        assert(occurs_at(rest, from, 0) == occurs_at(hay, from, at));
        assert(rest.skip(from.len() as int) == hay.skip(at + from.len()));
        assert(rest.skip(1) == hay.skip(at + 1));
    }
}

/// `hay` with every occurrence of `from` replaced by `to`, found from left to
/// right, no occurrence overlapping the one before. An empty `from` occurs
/// nowhere: `hay` comes back as it is.
pub fn replace_text(hay: &str, from: &str, to: &str) -> (r: String)
    ensures
        r@ == replaced(hay@, from@, to@),
{
    let h = chars_of(hay);
    let f = chars_of(from);
    if f.len() == 0 {
        return String::from_str(hay);
    }
    let mut r = String::new();
    let mut at: usize = 0;
    proof {
        assert(hay@.skip(0) == hay@);
        assert(r@ + replaced(hay@, from@, to@) == replaced(hay@, from@, to@));
    }
    while at < h.len()
        invariant
            at <= h.len(),
            h@ == hay@,
            f@ == from@,
            f.len() > 0,
            r@ + replaced(hay@.skip(at as int), from@, to@) == replaced(hay@, from@, to@),
        decreases h.len() - at,
    {
        proof {
            lemma_replaced_step(hay@, from@, to@, at as int);
        }
        if f.len() <= h.len() - at && matches_at(&h, &f, at) {
            r.append(to);
            at = at + f.len();
        } else {
            proof {
                if at + f.len() > h.len() {
                    // Too short for another occurrence: the rest stays as it is,
                    // and copying it character by character gives the same.
                    lemma_replaced_step(hay@, from@, to@, at + 1);
                    assert(hay@.skip(at as int) == seq![hay@[at as int]] + hay@.skip(at + 1));
                }
            }
            r.push(h[at]);
            at = at + 1;
        }
    }
    proof {
        assert(hay@.skip(hay@.len() as int).len() == 0);
    }
    r
}

/// Whether `a` comes strictly before `b` in dictionary order.
pub fn text_less(a: &str, b: &str) -> (r: bool)
    ensures
        r == text_before(a@, b@),
{
    let x = chars_of(a);
    let y = chars_of(b);
    let mut k: usize = 0;
    proof {
        assert(a@.skip(0) == a@);
        assert(b@.skip(0) == b@);
    }
    while k < x.len() && k < y.len()
        invariant
            k <= x.len(),
            k <= y.len(),
            x@ == a@,
            y@ == b@,
            text_before(a@, b@) == text_before(a@.skip(k as int), b@.skip(k as int)),
        decreases x.len() - k,
    {
        proof {
            assert(a@.skip(k as int)[0] == x@[k as int]);
            assert(b@.skip(k as int)[0] == y@[k as int]);
            assert(a@.skip(k as int).skip(1) == a@.skip(k + 1));
            assert(b@.skip(k as int).skip(1) == b@.skip(k + 1));
        }
        let c: char = x[k];
        let d: char = y[k];
        if c != d {
            return c < d;
        }
        k = k + 1;
    }
    k < y.len()
}

} // verus!
