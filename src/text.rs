//! Text on sequences of characters: substring search, literal replacement,
//! trimming, the sanitizer for display text, padding and decimal numbers.

use vstd::prelude::*;

verus! {

/// True when `c` lies in the 7-bit ASCII range.
pub open spec fn is_ascii_char(c: char) -> bool {
    c <= '\u{7f}'
}

/// True when every character of `s` is ASCII.
pub open spec fn all_ascii(s: Seq<char>) -> bool {
    forall|i: int| 0 <= i < s.len() ==> is_ascii_char(#[trigger] s[i])
}

/// `s` with every non-ASCII character removed.
pub open spec fn ascii_only(s: Seq<char>) -> Seq<char> {
    s.filter(|c: char| is_ascii_char(c))
}

/// True when `p` occurs in `s` at position `i`.
pub open spec fn occurs_at(s: Seq<char>, p: Seq<char>, i: int) -> bool {
    0 <= i && i + p.len() <= s.len() && s.subrange(i, i + p.len()) == p
}

/// True when `p` occurs in `s` as a contiguous substring.
pub open spec fn contains(s: Seq<char>, p: Seq<char>) -> bool {
    exists|i: int| occurs_at(s, p, i)
}

/// Every occurrence of `p` in `s` replaced by `r`, scanning from the left and
/// never letting two replaced occurrences overlap.
pub open spec fn replace_all(s: Seq<char>, p: Seq<char>, r: Seq<char>) -> Seq<char>
    decreases s.len(),
{
    if p.len() == 0 || s.len() < p.len() {
        s
    } else if s.subrange(0, p.len() as int) == p {
        r + replace_all(s.subrange(p.len() as int, s.len() as int), p, r)
    } else {
        seq![s[0]] + replace_all(s.drop_first(), p, r)
    }
}

/// The ASCII characters that `char::is_whitespace` accepts.
pub open spec fn is_space(c: char) -> bool {
    c == ' ' || ('\t' <= c && c <= '\r')
}

/// `s` without its leading spaces.
pub open spec fn trim_start(s: Seq<char>) -> Seq<char>
    decreases s.len(),
{
    if s.len() > 0 && is_space(s[0]) {
        trim_start(s.drop_first())
    } else {
        s
    }
}

/// `s` without its trailing spaces.
pub open spec fn trim_end(s: Seq<char>) -> Seq<char>
    decreases s.len(),
{
    if s.len() > 0 && is_space(s.last()) {
        trim_end(s.drop_last())
    } else {
        s
    }
}

/// `s` without leading and trailing spaces.
pub open spec fn trim(s: Seq<char>) -> Seq<char> {
    trim_end(trim_start(s))
}

/// Display text: non-ASCII characters removed, the entities `&amp;`, `&gt;`
/// and `&lt;` decoded in that order, then leading and trailing spaces
/// removed.
pub open spec fn sanitized(s: Seq<char>) -> Seq<char> {
    trim(
        replace_all(
            replace_all(replace_all(ascii_only(s), "&amp;"@, "&"@), "&gt;"@, ">"@),
            "&lt;"@,
            "<"@,
        ),
    )
}

/// `n` spaces.
pub open spec fn spaces(n: nat) -> Seq<char> {
    Seq::new(n, |i: int| ' ')
}

/// `s` cut or padded with spaces to exactly `w` characters, as a `{:w.w}`
/// format of a string does.
pub open spec fn fit(s: Seq<char>, w: nat) -> Seq<char> {
    if s.len() >= w {
        s.take(w as int)
    } else {
        s + spaces((w - s.len()) as nat)
    }
}

/// The decimal digit for `d` (0 to 9).
pub open spec fn digit_char(d: nat) -> char {
    ((d + 48) as u32) as char
}

/// The decimal digits of `n`, without leading zeros.
pub open spec fn digits(n: nat) -> Seq<char>
    decreases n,
{
    if n < 10 {
        seq![digit_char(n)]
    } else {
        digits(n / 10).push(digit_char(n % 10))
    }
}

/// The decimal text of `n`, with a `-` before a negative number.
pub open spec fn decimal(n: int) -> Seq<char> {
    if n < 0 {
        seq!['-'] + digits((-n) as nat)
    } else {
        digits(n as nat)
    }
}

/// Relies on `String::push`: it appends one character.
#[verifier::external_body]
pub(crate) fn push_char(s: &mut String, c: char)
    ensures
        final(s)@ == old(s)@.push(c),
{
    s.push(c);
}

/// The characters of `s`, in order.
pub fn chars_of(s: &str) -> (r: Vec<char>)
    ensures
        r@ == s@,
{
    let mut r: Vec<char> = Vec::new();
    for c in it: s.chars()
        invariant
            r@ == it.seq().take(it.index() as int),
    {
        r.push(c);
    }
    assert(r@ =~= s@);
    r
}


/// The ASCII characters of `v`, in order.
fn keep_ascii(v: &Vec<char>) -> (r: Vec<char>)
    ensures
        r@ == ascii_only(v@),
{
    let mut r: Vec<char> = Vec::new();
    let mut i: usize = 0;
    while i < v.len()
        invariant
            i <= v.len(),
            r@ == ascii_only(v@.take(i as int)),
        decreases v.len() - i,
    {
        let c = v[i];
        proof {
            assert(v@.take(i + 1).drop_last() =~= v@.take(i as int));
            assert(v@.take(i + 1).last() == c);
            reveal(Seq::filter);
        }
        if c <= '\u{7f}' {
            r.push(c);
        }
        i = i + 1;
    }
    assert(v@.take(v.len() as int) =~= v@);
    r
}

/// True when `p` occurs in `s` at position `i`.
fn matches_at(s: &Vec<char>, p: &Vec<char>, i: usize) -> (r: bool)
    requires
        i <= s.len(),
    ensures
        r == occurs_at(s@, p@, i as int),
{
    if s.len() - i < p.len() {
        return false;
    }
    let mut k: usize = 0;
    while k < p.len()
        invariant
            i + p.len() <= s.len(),
            k <= p.len(),
            forall|j: int| 0 <= j < k ==> s@[i + j] == p@[j],
        decreases p.len() - k,
    {
        if s[i + k] != p[k] {
            assert(s@.subrange(i as int, i + p.len())[k as int] != p@[k as int]);
            return false;
        }
        k = k + 1;
    }
    assert(s@.subrange(i as int, i + p.len()) =~= p@);
    true
}

/// True when `p` occurs in `s` as a contiguous substring.
pub fn contains_seq(s: &Vec<char>, p: &Vec<char>) -> (r: bool)
    ensures
        r == contains(s@, p@),
{
    if p.len() == 0 {
        assert(s@.subrange(0, 0) =~= p@);
        assert(occurs_at(s@, p@, 0));
        return true;
    }
    if p.len() > s.len() {
        assert forall|i: int| !occurs_at(s@, p@, i) by {}
        return false;
    }
    let last = s.len() - p.len();
    let mut i: usize = 0;
    while i <= last
        invariant
            last == s.len() - p.len(),
            0 < p.len() <= s.len(),
            forall|j: int| 0 <= j < i ==> !occurs_at(s@, p@, j),
        decreases last + 1 - i,
    {
        if matches_at(s, p, i) {
            return true;
        }
        i = i + 1;
    }
    assert forall|j: int| !occurs_at(s@, p@, j) by {
        if 0 <= j < i {
        }
    }
    false
}

/// True when `p` occurs in `s` as a contiguous substring.
pub fn contains_str(s: &str, p: &str) -> (r: bool)
    ensures
        r == contains(s@, p@),
{
    let sv = chars_of(s);
    let pv = chars_of(p);
    contains_seq(&sv, &pv)
}

/// Every occurrence of `p` in `v` replaced by `r`, from the left.
fn replace_seq(v: &Vec<char>, p: &Vec<char>, r: &Vec<char>) -> (out: Vec<char>)
    requires
        p.len() > 0,
    ensures
        out@ == replace_all(v@, p@, r@),
{
    let n = v.len();
    let mut out: Vec<char> = Vec::new();
    let mut i: usize = 0;
    assert(v@.subrange(0, n as int) =~= v@);
    while i < n
        invariant
            n == v.len(),
            p.len() > 0,
            i <= n,
            out@ + replace_all(v@.subrange(i as int, n as int), p@, r@) == replace_all(v@, p@, r@),
        decreases n - i,
    {
        let ghost rest = v@.subrange(i as int, n as int);
        if matches_at(v, p, i) {
            proof {
                assert(rest.subrange(0, p.len() as int) =~= v@.subrange(i as int, i + p.len()));
                assert(rest.subrange(p.len() as int, rest.len() as int) =~= v@.subrange(i + p.len(), n as int));
            }
            let ghost start = out@;
            let mut k: usize = 0;
            while k < r.len()
                invariant
                    k <= r.len(),
                    out@ == start + r@.take(k as int),
                decreases r.len() - k,
            {
                out.push(r[k]);
                k = k + 1;
                assert(out@ =~= start + r@.take(k as int));
            }
            assert(r@.take(r.len() as int) =~= r@);
            assert(out@ + replace_all(v@.subrange(i + p.len(), n as int), p@, r@) =~= start + (r@
                + replace_all(v@.subrange(i + p.len(), n as int), p@, r@)));
            i = i + p.len();
        } else {
            proof {
                assert(rest.drop_first() =~= v@.subrange(i + 1, n as int));
                if rest.len() >= p.len() {
                    assert(rest.subrange(0, p.len() as int) =~= v@.subrange(i as int, i + p.len()));
                } else {
                    assert(replace_all(rest.drop_first(), p@, r@) == rest.drop_first());
                    assert(rest =~= seq![rest[0]] + rest.drop_first());
                }
                assert(seq![rest[0]] + replace_all(rest.drop_first(), p@, r@) == replace_all(rest, p@, r@));
                assert(out@.push(v@[i as int]) + replace_all(rest.drop_first(), p@, r@) =~= out@ + (
                seq![rest[0]] + replace_all(rest.drop_first(), p@, r@)));
            }
            out.push(v[i]);
            i = i + 1;
        }
    }
    assert(v@.subrange(n as int, n as int).len() == 0);
    out
}


fn space_char(c: char) -> (r: bool)
    ensures
        r == is_space(c),
{
    c == ' ' || ('\t' <= c && c <= '\r')
}

/// The bounds of `v` without its leading and trailing spaces.
fn trim_bounds(v: &Vec<char>) -> (r: (usize, usize))
    ensures
        r.0 <= r.1 <= v.len(),
        v@.subrange(r.0 as int, r.1 as int) == trim(v@),
{
    let n = v.len();
    let mut i: usize = 0;
    assert(v@.subrange(0, n as int) =~= v@);
    while i < n && space_char(v[i])
        invariant
            n == v.len(),
            i <= n,
            trim_start(v@.subrange(i as int, n as int)) == trim_start(v@),
        decreases n - i,
    {
        assert(v@.subrange(i as int, n as int).drop_first() =~= v@.subrange(i + 1, n as int));
        i = i + 1;
    }
    let mut j: usize = n;
    while j > i && space_char(v[j - 1])
        invariant
            i <= j <= n,
            n == v.len(),
            trim_start(v@) == v@.subrange(i as int, n as int),
            trim_end(v@.subrange(i as int, j as int)) == trim(v@),
        decreases j,
    {
        assert(v@.subrange(i as int, j as int).drop_last() =~= v@.subrange(i as int, j - 1));
        j = j - 1;
    }
    (i, j)
}

/// Appends the characters of `v` from `from` up to `to`.
fn push_range(out: &mut String, v: &Vec<char>, from: usize, to: usize)
    requires
        from <= to <= v.len(),
    ensures
        final(out)@ == old(out)@ + v@.subrange(from as int, to as int),
{
    let mut k: usize = from;
    while k < to
        invariant
            from <= k <= to <= v.len(),
            out@ == old(out)@ + v@.subrange(from as int, k as int),
        decreases to - k,
    {
        push_char(out, v[k]);
        k = k + 1;
        assert(out@ =~= old(out)@ + v@.subrange(from as int, k as int));
    }
}

/// The characters of `sanitized(name@)`.
pub(crate) fn sanitized_chars(name: &str) -> (r: Vec<char>)
    ensures
        r@ == sanitized(name@),
{
    let all = chars_of(name);
    let ascii = keep_ascii(&all);
    let amp = chars_of("&amp;");
    let gt = chars_of("&gt;");
    let lt = chars_of("&lt;");
    proof {
        reveal_strlit("&amp;");
        reveal_strlit("&gt;");
        reveal_strlit("&lt;");
    }
    let s1 = replace_seq(&ascii, &amp, &chars_of("&"));
    let s2 = replace_seq(&s1, &gt, &chars_of(">"));
    let s3 = replace_seq(&s2, &lt, &chars_of("<"));
    let (a, b) = trim_bounds(&s3);
    let mut r: Vec<char> = Vec::new();
    let mut k: usize = a;
    while k < b
        invariant
            a <= k <= b <= s3.len(),
            r@ == s3@.subrange(a as int, k as int),
        decreases b - k,
    {
        r.push(s3[k]);
        k = k + 1;
        assert(r@ =~= s3@.subrange(a as int, k as int));
    }
    r
}

/// Text made fit for a terminal: non-ASCII characters are dropped, the
/// entities `&amp;`, `&gt;` and `&lt;` are decoded in that order, and
/// leading and trailing whitespace is removed.
pub fn sanitize_name(name: &str) -> (r: String)
    ensures
        r@ == sanitized(name@),
        all_ascii(r@),
{
    proof {
        lemma_sanitize_is_ascii(name@);
    }
    let v = sanitized_chars(name);
    let mut r = String::new();
    push_range(&mut r, &v, 0, v.len());
    assert(v@.subrange(0, v.len() as int) =~= v@);
    r
}

/// Appends `v` cut or padded with spaces to `w` characters.
pub(crate) fn push_fit(out: &mut String, v: &Vec<char>, w: usize)
    ensures
        final(out)@ == old(out)@ + fit(v@, w as nat),
{
    if v.len() >= w {
        push_range(out, v, 0, w);
        assert(v@.subrange(0, w as int) =~= v@.take(w as int));
    } else {
        push_range(out, v, 0, v.len());
        assert(v@.subrange(0, v.len() as int) =~= v@);
        let ghost mid = out@;
        let pad = w - v.len();
        let mut k: usize = 0;
        while k < pad
            invariant
                k <= pad,
                out@ == mid + spaces(k as nat),
            decreases pad - k,
        {
            push_char(out, ' ');
            k = k + 1;
            assert(out@ =~= mid + spaces(k as nat));
        }
        assert(out@ =~= old(out)@ + fit(v@, w as nat));
    }
}

fn digit(d: u64) -> (c: char)
    requires
        d < 10,
    ensures
        c == digit_char(d as nat),
{
    match d {
        0 => '0',
        1 => '1',
        2 => '2',
        3 => '3',
        4 => '4',
        5 => '5',
        6 => '6',
        7 => '7',
        8 => '8',
        _ => '9',
    }
}

/// Appends the decimal digits of `n`.
fn push_digits(out: &mut String, n: u64)
    ensures
        final(out)@ == old(out)@ + digits(n as nat),
    decreases n,
{
    if n >= 10 {
        push_digits(out, n / 10);
    }
    let c = digit(n % 10);
    push_char(out, c);
    if n < 10 {
        assert(out@ =~= old(out)@ + digits(n as nat));
    } else {
        assert(out@ =~= old(out)@ + digits(n as nat));
    }
}

/// Appends the decimal text of `n`.
pub(crate) fn push_decimal(out: &mut String, n: i64)
    ensures
        final(out)@ == old(out)@ + decimal(n as int),
{
    if n < 0 {
        push_char(out, '-');
        let m: u64 = if n == i64::MIN { 9223372036854775808u64 } else { (-n) as u64 };
        push_digits(out, m);
        assert(out@ =~= old(out)@ + decimal(n as int));
    } else {
        push_digits(out, n as u64);
    }
}


proof fn lemma_ascii_only_keeps_ascii(s: Seq<char>)
    requires
        all_ascii(s),
    ensures
        ascii_only(s) == s,
    decreases s.len(),
{
    if s.len() > 0 {
        lemma_ascii_only_keeps_ascii(s.drop_last());
        reveal(Seq::filter);
        assert(is_ascii_char(s[s.len() - 1]));
        assert(s.drop_last().push(s.last()) =~= s);
        assert(ascii_only(s) == ascii_only(s.drop_last()).push(s.last()));
    }
}

proof fn lemma_replace_absent(s: Seq<char>, p: Seq<char>, r: Seq<char>)
    requires
        !contains(s, p),
    ensures
        replace_all(s, p, r) == s,
    decreases s.len(),
{
    if p.len() > 0 && s.len() >= p.len() {
        assert(!occurs_at(s, p, 0));
        assert forall|i: int| !occurs_at(s.drop_first(), p, i) by {
            if occurs_at(s.drop_first(), p, i) {
                assert(s.subrange(i + 1, i + 1 + p.len()) =~= s.drop_first().subrange(i, i + p.len()));
                assert(occurs_at(s, p, i + 1));
            }
        }
        lemma_replace_absent(s.drop_first(), p, r);
        assert(seq![s[0]] + s.drop_first() =~= s);
    }
}

proof fn lemma_replace_keeps_ascii(s: Seq<char>, p: Seq<char>, r: Seq<char>)
    requires
        all_ascii(s),
        all_ascii(r),
    ensures
        all_ascii(replace_all(s, p, r)),
    decreases s.len(),
{
    if p.len() == 0 || s.len() < p.len() {
    } else if s.subrange(0, p.len() as int) == p {
        let rest = s.subrange(p.len() as int, s.len() as int);
        assert(all_ascii(rest)) by {
            assert forall|i: int| 0 <= i < rest.len() implies is_ascii_char(#[trigger] rest[i]) by {
                assert(rest[i] == s[i + p.len()]);
            }
        }
        lemma_replace_keeps_ascii(rest, p, r);
        let t = replace_all(rest, p, r);
        assert forall|i: int| 0 <= i < (r + t).len() implies is_ascii_char(#[trigger] (r + t)[i]) by {
            if i >= r.len() {
                assert((r + t)[i] == t[i - r.len()]);
            }
        }
    } else {
        let rest = s.drop_first();
        assert(all_ascii(rest)) by {
            assert forall|i: int| 0 <= i < rest.len() implies is_ascii_char(#[trigger] rest[i]) by {
                assert(rest[i] == s[i + 1]);
            }
        }
        lemma_replace_keeps_ascii(rest, p, r);
        let t = replace_all(rest, p, r);
        assert forall|i: int| 0 <= i < (seq![s[0]] + t).len() implies is_ascii_char(
            #[trigger] (seq![s[0]] + t)[i],
        ) by {
            if i >= 1 {
                assert((seq![s[0]] + t)[i] == t[i - 1]);
            }
        }
    }
}

proof fn lemma_trim_is_part(s: Seq<char>)
    ensures
        exists|a: int, b: int| 0 <= a <= b <= s.len() && trim(s) == s.subrange(a, b),
{
    lemma_trim_start_is_suffix(s);
    let a = choose|a: int| 0 <= a <= s.len() && trim_start(s) == s.subrange(a, s.len() as int);
    lemma_trim_end_is_prefix(trim_start(s));
    let b = choose|b: int|
        0 <= b <= trim_start(s).len() && trim(s) == trim_start(s).subrange(0, b);
    assert(trim(s) =~= s.subrange(a, a + b));
}

proof fn lemma_trim_start_is_suffix(s: Seq<char>)
    ensures
        exists|a: int| 0 <= a <= s.len() && trim_start(s) == s.subrange(a, s.len() as int),
    decreases s.len(),
{
    if s.len() > 0 && is_space(s[0]) {
        lemma_trim_start_is_suffix(s.drop_first());
        let a = choose|a: int|
            0 <= a <= s.drop_first().len() && trim_start(s.drop_first()) == s.drop_first().subrange(
                a,
                s.drop_first().len() as int,
            );
        assert(s.drop_first().subrange(a, s.drop_first().len() as int) =~= s.subrange(
            a + 1,
            s.len() as int,
        ));
    } else {
        assert(s.subrange(0, s.len() as int) =~= s);
    }
}

proof fn lemma_trim_end_is_prefix(s: Seq<char>)
    ensures
        exists|b: int| 0 <= b <= s.len() && trim_end(s) == s.subrange(0, b),
    decreases s.len(),
{
    if s.len() > 0 && is_space(s.last()) {
        lemma_trim_end_is_prefix(s.drop_last());
        let b = choose|b: int|
            0 <= b <= s.drop_last().len() && trim_end(s.drop_last()) == s.drop_last().subrange(0, b);
        assert(s.drop_last().subrange(0, b) =~= s.subrange(0, b));
    } else {
        assert(s.subrange(0, s.len() as int) =~= s);
    }
}

/// Text that is all ASCII and holds none of the three decoded entities is
/// only trimmed by the sanitizer.
pub proof fn lemma_sanitize_plain_ascii(s: Seq<char>)
    requires
        all_ascii(s),
        !contains(s, "&amp;"@),
        !contains(s, "&gt;"@),
        !contains(s, "&lt;"@),
    ensures
        sanitized(s) == trim(s),
{
    lemma_ascii_only_keeps_ascii(s);
    lemma_replace_absent(s, "&amp;"@, "&"@);
    lemma_replace_absent(s, "&gt;"@, ">"@);
    lemma_replace_absent(s, "&lt;"@, "<"@);
}

/// The sanitizer's output never holds a non-ASCII character, whatever its
/// input.
pub proof fn lemma_sanitize_is_ascii(s: Seq<char>)
    ensures
        all_ascii(sanitized(s)),
{
    reveal_strlit("&");
    reveal_strlit(">");
    reveal_strlit("<");
    let a = ascii_only(s);
    assert forall|i: int| 0 <= i < a.len() implies is_ascii_char(#[trigger] a[i]) by {
        s.lemma_filter_pred(|c: char| is_ascii_char(c), i);
    }
    lemma_replace_keeps_ascii(a, "&amp;"@, "&"@);
    let b = replace_all(a, "&amp;"@, "&"@);
    lemma_replace_keeps_ascii(b, "&gt;"@, ">"@);
    let c = replace_all(b, "&gt;"@, ">"@);
    lemma_replace_keeps_ascii(c, "&lt;"@, "<"@);
    let d = replace_all(c, "&lt;"@, "<"@);
    lemma_trim_is_part(d);
    let (x, y) = choose|x: int, y: int| 0 <= x <= y <= d.len() && trim(d) == d.subrange(x, y);
    assert forall|i: int| 0 <= i < trim(d).len() implies is_ascii_char(#[trigger] trim(d)[i]) by {
        assert(trim(d)[i] == d[x + i]);
    }
}

} // verus!
