//! Character-level text model shared by the SQL builders and the formatters.
//!
//! Strings are viewed as `Seq<char>`; every operation below is given as a spec
//! function over that view and implemented by an executable function that is
//! proved to compute it.
use vstd::prelude::*;

verus! {

/// The Unicode `White_Space` property, which is what `str::trim` strips.
pub open spec fn is_white_space(c: char) -> bool {
    ||| ('\u{9}' <= c && c <= '\u{d}')
    ||| c == ' '
    ||| c == '\u{85}'
    ||| c == '\u{a0}'
    ||| c == '\u{1680}'
    ||| ('\u{2000}' <= c && c <= '\u{200a}')
    ||| c == '\u{2028}'
    ||| c == '\u{2029}'
    ||| c == '\u{202f}'
    ||| c == '\u{205f}'
    ||| c == '\u{3000}'
}

/// `s` without its leading white space.
pub open spec fn trim_start(s: Seq<char>) -> Seq<char>
    decreases s.len(),
{
    if s.len() > 0 && is_white_space(s[0]) {
        trim_start(s.drop_first())
    } else {
        s
    }
}

/// `s` without its trailing white space.
pub open spec fn trim_end(s: Seq<char>) -> Seq<char>
    decreases s.len(),
{
    if s.len() > 0 && is_white_space(s.last()) {
        trim_end(s.drop_last())
    } else {
        s
    }
}

/// `s` without leading and trailing white space (`str::trim`).
pub open spec fn trim(s: Seq<char>) -> Seq<char> {
    trim_end(trim_start(s))
}

/// `s` without any trailing run of `c` (`str::trim_end_matches` with a char).
pub open spec fn trim_end_char(s: Seq<char>, c: char) -> Seq<char>
    decreases s.len(),
{
    if s.len() > 0 && s.last() == c {
        trim_end_char(s.drop_last(), c)
    } else {
        s
    }
}

/// `p` occurs in `s` at position `i`.
pub open spec fn occurs_at(s: Seq<char>, p: Seq<char>, i: int) -> bool {
    0 <= i && i + p.len() <= s.len() && s.subrange(i, i + p.len()) == p
}

/// `p` occurs somewhere in `s` (`str::contains`).
pub open spec fn contains(s: Seq<char>, p: Seq<char>) -> bool {
    exists|i: int| occurs_at(s, p, i)
}

/// `s` begins with `p` (`str::starts_with`).
pub open spec fn starts_with(s: Seq<char>, p: Seq<char>) -> bool {
    occurs_at(s, p, 0)
}

/// Every occurrence of the non-empty pattern `p` in `s`, taken from left to
/// right without overlap, replaced by `r` (`str::replace`).
pub open spec fn replace_all(s: Seq<char>, p: Seq<char>, r: Seq<char>) -> Seq<char>
    recommends
        p.len() > 0,
    decreases s.len(),
{
    if s.len() == 0 || p.len() == 0 {
        s
    } else if starts_with(s, p) {
        r + replace_all(s.skip(p.len() as int), p, r)
    } else {
        seq![s[0]] + replace_all(s.drop_first(), p, r)
    }
}

/// `s` with every `q` written twice (the escaping of a quote inside a quoted
/// SQL token).
pub open spec fn double_char(s: Seq<char>, q: char) -> Seq<char>
    decreases s.len(),
{
    if s.len() == 0 {
        seq![]
    } else if s[0] == q {
        seq![q, q] + double_char(s.drop_first(), q)
    } else {
        seq![s[0]] + double_char(s.drop_first(), q)
    }
}

/// Reads back a text escaped by `double_char`: each doubled `q` stands for one.
pub open spec fn undouble_char(t: Seq<char>, q: char) -> Seq<char>
    decreases t.len(),
{
    if t.len() == 0 {
        seq![]
    } else if t.len() >= 2 && t[0] == q && t[1] == q {
        seq![q] + undouble_char(t.skip(2), q)
    } else {
        seq![t[0]] + undouble_char(t.drop_first(), q)
    }
}

/// The items joined by the separator `sep` (`[String]::join`).
pub open spec fn join(items: Seq<Seq<char>>, sep: Seq<char>) -> Seq<char>
    decreases items.len(),
{
    if items.len() == 0 {
        seq![]
    } else if items.len() == 1 {
        items[0]
    } else {
        join(items.drop_last(), sep) + sep + items.last()
    }
}

/// The decimal digit for `d < 10`.
pub open spec fn digit(d: nat) -> char {
    if d == 0 { '0' }
    else if d == 1 { '1' }
    else if d == 2 { '2' }
    else if d == 3 { '3' }
    else if d == 4 { '4' }
    else if d == 5 { '5' }
    else if d == 6 { '6' }
    else if d == 7 { '7' }
    else if d == 8 { '8' }
    else { '9' }
}

/// The decimal representation of `n`, without leading zeros (`u64::to_string`).
pub open spec fn decimal(n: nat) -> Seq<char>
    decreases n,
{
    if n < 10 {
        seq![digit(n)]
    } else {
        decimal(n / 10) + seq![digit(n % 10)]
    }
}

/// Trusted: `String::push` appends the character `c` to the end of `s`, as
/// the standard library documents it; this contract is believed, not proved.
#[verifier::external_body]
pub fn push_char(s: &mut String, c: char)
    ensures
        final(s)@ == old(s)@.push(c),
{
    s.push(c);
}

/// Whether `c` is white space (`char::is_whitespace`).
pub fn is_whitespace(c: char) -> (b: bool)
    ensures
        b == is_white_space(c),
{
    ('\u{9}' <= c && c <= '\u{d}') || c == ' ' || c == '\u{85}' || c == '\u{a0}' || c
        == '\u{1680}' || ('\u{2000}' <= c && c <= '\u{200a}') || c == '\u{2028}' || c
        == '\u{2029}' || c == '\u{202f}' || c == '\u{205f}' || c == '\u{3000}'
}

/// The characters of `s`.
pub fn chars_of(s: &str) -> (v: Vec<char>)
    ensures
        v@ == s@,
{
    let n = s.unicode_len();
    let mut v: Vec<char> = Vec::new();
    let mut i: usize = 0;
    while i < n
        invariant
            n == s@.len(),
            i <= n,
            v@ == s@.take(i as int),
        decreases n - i,
    {
        v.push(s.get_char(i));
        i = i + 1;
        assert(v@ =~= s@.take(i as int));
    }
    assert(v@ =~= s@);
    v
}

/// Appends the characters `v` to `s`.
pub fn push_chars(s: &mut String, v: &[char])
    ensures
        final(s)@ == old(s)@ + v@,
{
    let ghost start = s@;
    let mut i: usize = 0;
    while i < v.len()
        invariant
            i <= v.len(),
            s@ == start + v@.take(i as int),
        decreases v.len() - i,
    {
        push_char(s, v[i]);
        i = i + 1;
        assert(s@ =~= start + v@.take(i as int));
    }
    assert(v@.take(v.len() as int) =~= v@);
}

/// A string holding the characters `v`.
pub fn string_of(v: &[char]) -> (s: String)
    ensures
        s@ == v@,
{
    let mut s = String::new();
    push_chars(&mut s, v);
    assert(s@ =~= v@);
    s
}

/// The characters `v[from..to]`.
pub fn slice_chars(v: &Vec<char>, from: usize, to: usize) -> (r: Vec<char>)
    requires
        from <= to <= v.len(),
    ensures
        r@ == v@.subrange(from as int, to as int),
{
    let mut r: Vec<char> = Vec::new();
    let mut i = from;
    while i < to
        invariant
            from <= i <= to <= v.len(),
            r@ == v@.subrange(from as int, i as int),
        decreases to - i,
    {
        r.push(v[i]);
        i = i + 1;
        assert(r@ =~= v@.subrange(from as int, i as int));
    }
    r
}

proof fn lemma_trim_start_skip(s: Seq<char>, i: int)
    requires
        0 <= i < s.len(),
        is_white_space(s[i]),
    ensures
        trim_start(s.skip(i)) == trim_start(s.skip(i + 1)),
{
    assert(s.skip(i).drop_first() =~= s.skip(i + 1));
}

proof fn lemma_trim_end_sub(s: Seq<char>, a: int, b: int)
    requires
        0 <= a < b <= s.len(),
        is_white_space(s[b - 1]),
    ensures
        trim_end(s.subrange(a, b)) == trim_end(s.subrange(a, b - 1)),
{
    assert(s.subrange(a, b).drop_last() =~= s.subrange(a, b - 1));
}

/// The characters of `v` without leading and trailing white space.
pub fn trim_chars(v: &Vec<char>) -> (r: Vec<char>)
    ensures
        r@ == trim(v@),
{
    let n = v.len();
    let mut a: usize = 0;
    assert(v@.skip(0) =~= v@);
    while a < n && is_whitespace(v[a])
        invariant
            n == v.len(),
            a <= n,
            trim_start(v@) == trim_start(v@.skip(a as int)),
        decreases n - a,
    {
        proof {
            lemma_trim_start_skip(v@, a as int);
        }
        a = a + 1;
    }
    assert(trim_start(v@.skip(a as int)) == v@.skip(a as int));
    assert(v@.skip(a as int) =~= v@.subrange(a as int, n as int));
    let mut b: usize = n;
    while b > a && is_whitespace(v[b - 1])
        invariant
            n == v.len(),
            a <= b <= n,
            trim_end(v@.subrange(a as int, n as int)) == trim_end(v@.subrange(a as int, b as int)),
        decreases b - a,
    {
        proof {
            lemma_trim_end_sub(v@, a as int, b as int);
        }
        b = b - 1;
    }
    let r = slice_chars(v, a, b);
    r
}

/// The characters of `v` without any trailing run of `c`.
pub fn trim_end_char_chars(v: &Vec<char>, c: char) -> (r: Vec<char>)
    ensures
        r@ == trim_end_char(v@, c),
{
    let n = v.len();
    let mut b: usize = n;
    assert(v@.subrange(0, n as int) =~= v@);
    while b > 0 && v[b - 1] == c
        invariant
            n == v.len(),
            b <= n,
            trim_end_char(v@, c) == trim_end_char(v@.subrange(0, b as int), c),
        decreases b,
    {
        assert(v@.subrange(0, b as int).drop_last() =~= v@.subrange(0, b - 1));
        b = b - 1;
    }
    slice_chars(v, 0, b)
}

/// Whether `p` occurs in `v` at position `i`.
pub fn occurs_at_chars(v: &Vec<char>, p: &Vec<char>, i: usize) -> (b: bool)
    ensures
        b == occurs_at(v@, p@, i as int),
{
    if i > v.len() || p.len() > v.len() - i {
        return false;
    }
    let mut j: usize = 0;
    while j < p.len()
        invariant
            i + p.len() <= v.len(),
            j <= p.len(),
            forall|k: int| 0 <= k < j ==> v@[i + k] == p@[k],
        decreases p.len() - j,
    {
        if v[i + j] != p[j] {
            assert(v@.subrange(i as int, i + p.len())[j as int] != p@[j as int]);
            return false;
        }
        j = j + 1;
    }
    assert(v@.subrange(i as int, i + p.len()) =~= p@);
    true
}

/// Whether `p` occurs somewhere in `v`.
pub fn contains_chars(v: &Vec<char>, p: &Vec<char>) -> (b: bool)
    ensures
        b == contains(v@, p@),
{
    let mut i: usize = 0;
    while i < v.len()
        invariant
            i <= v.len(),
            forall|k: int| 0 <= k < i ==> !occurs_at(v@, p@, k),
        decreases v.len() - i,
    {
        if occurs_at_chars(v, p, i) {
            return true;
        }
        i = i + 1;
    }
    if occurs_at_chars(v, p, i) {
        return true;
    }
    assert forall|k: int| !occurs_at(v@, p@, k) by {
        if 0 <= k && k + p@.len() <= v@.len() {
            assert(k <= i);
        }
    }
    false
}

proof fn lemma_replace_step_match(s: Seq<char>, p: Seq<char>, r: Seq<char>, i: int)
    requires
        p.len() > 0,
        0 <= i < s.len(),
        occurs_at(s, p, i),
    ensures
        replace_all(s.skip(i), p, r) == r + replace_all(s.skip(i + p.len()), p, r),
{
    assert(s.skip(i).subrange(0, p.len() as int) =~= s.subrange(i, i + p.len()));
    assert(s.skip(i).skip(p.len() as int) =~= s.skip(i + p.len()));
}

proof fn lemma_replace_step_other(s: Seq<char>, p: Seq<char>, r: Seq<char>, i: int)
    requires
        p.len() > 0,
        0 <= i < s.len(),
        !occurs_at(s, p, i),
    ensures
        replace_all(s.skip(i), p, r) == seq![s[i]] + replace_all(s.skip(i + 1), p, r),
{
    if p.len() <= s.skip(i).len() {
        assert(s.skip(i).subrange(0, p.len() as int) =~= s.subrange(i, i + p.len()));
    }
    assert(s.skip(i).drop_first() =~= s.skip(i + 1));
}

/// The characters of `v` with every occurrence of `p`, from left to right and
/// without overlap, replaced by `r`.
pub fn replace_chars(v: &Vec<char>, p: &Vec<char>, r: &Vec<char>) -> (out: Vec<char>)
    requires
        p.len() > 0,
    ensures
        out@ == replace_all(v@, p@, r@),
{
    let mut out: Vec<char> = Vec::new();
    let mut i: usize = 0;
    assert(v@.skip(0) =~= v@);
    assert(out@ + replace_all(v@, p@, r@) =~= replace_all(v@, p@, r@));
    while i < v.len()
        invariant
            p.len() > 0,
            i <= v.len(),
            out@ + replace_all(v@.skip(i as int), p@, r@) == replace_all(v@, p@, r@),
        decreases v.len() - i,
    {
        if occurs_at_chars(v, p, i) {
            proof {
                lemma_replace_step_match(v@, p@, r@, i as int);
            }
            let ghost before = out@;
            let mut j: usize = 0;
            while j < r.len()
                invariant
                    j <= r.len(),
                    out@ == before + r@.take(j as int),
                decreases r.len() - j,
            {
                out.push(r[j]);
                j = j + 1;
                assert(out@ =~= before + r@.take(j as int));
            }
            assert(r@.take(r.len() as int) =~= r@);
            assert(out@ + replace_all(v@.skip(i + p.len()), p@, r@) =~= before + (r@
                + replace_all(v@.skip(i + p.len()), p@, r@)));
            i = i + p.len();
        } else {
            proof {
                lemma_replace_step_other(v@, p@, r@, i as int);
            }
            let ghost before = out@;
            out.push(v[i]);
            assert(out@ + replace_all(v@.skip(i + 1), p@, r@) =~= before + (seq![v@[i as int]]
                + replace_all(v@.skip(i + 1), p@, r@)));
            i = i + 1;
        }
    }
    assert(v@.skip(v.len() as int) =~= Seq::<char>::empty());
    assert(out@ + Seq::<char>::empty() =~= out@);
    out
}

proof fn lemma_double_char_skip(s: Seq<char>, q: char, i: int)
    requires
        0 <= i < s.len(),
    ensures
        double_char(s.skip(i), q) == (if s[i] == q { seq![q, q] } else { seq![s[i]] })
            + double_char(s.skip(i + 1), q),
{
    assert(s.skip(i).drop_first() =~= s.skip(i + 1));
}

/// Appends `s` to `out` with every `q` written twice.
pub fn push_doubled(out: &mut String, s: &Vec<char>, q: char)
    ensures
        final(out)@ == old(out)@ + double_char(s@, q),
{
    let ghost start = out@;
    let mut i: usize = 0;
    assert(s@.skip(0) =~= s@);
    while i < s.len()
        invariant
            i <= s.len(),
            start + double_char(s@, q) == out@ + double_char(s@.skip(i as int), q),
        decreases s.len() - i,
    {
        proof {
            lemma_double_char_skip(s@, q, i as int);
        }
        let ghost before = out@;
        if s[i] == q {
            push_char(out, q);
            push_char(out, q);
            assert(out@ =~= before + seq![q, q]);
        } else {
            push_char(out, s[i]);
            assert(out@ =~= before + seq![s@[i as int]]);
        }
        i = i + 1;
    }
    assert(s@.skip(s.len() as int) =~= Seq::<char>::empty());
    assert(out@ + Seq::<char>::empty() =~= out@);
}

/// The decimal digit character for `d < 10`.
pub fn digit_char(d: u64) -> (c: char)
    requires
        d < 10,
    ensures
        c == digit(d as nat),
{
    if d == 0 { '0' }
    else if d == 1 { '1' }
    else if d == 2 { '2' }
    else if d == 3 { '3' }
    else if d == 4 { '4' }
    else if d == 5 { '5' }
    else if d == 6 { '6' }
    else if d == 7 { '7' }
    else if d == 8 { '8' }
    else { '9' }
}

/// Appends the decimal representation of `n` to `out`.
pub fn push_decimal(out: &mut String, n: u64)
    ensures
        final(out)@ == old(out)@ + decimal(n as nat),
    decreases n,
{
    let ghost start = out@;
    if n >= 10 {
        push_decimal(out, n / 10);
    }
    push_char(out, digit_char(n % 10));
    assert(out@ =~= start + decimal(n as nat));
}


/// Reading back a doubled text gives the original text.
pub proof fn lemma_undouble_double(s: Seq<char>, q: char)
    ensures
        undouble_char(double_char(s, q), q) == s,
    decreases s.len(),
{
    if s.len() > 0 {
        let rest = double_char(s.drop_first(), q);
        lemma_undouble_double(s.drop_first(), q);
        if s[0] == q {
            let t = seq![q, q] + rest;
            assert(t.skip(2) =~= rest);
        } else {
            let t = seq![s[0]] + rest;
            assert(t.drop_first() =~= rest);
        }
        assert(seq![s[0]] + s.drop_first() =~= s);
    }
}

/// Doubling a character is injective.
pub proof fn lemma_double_char_injective(a: Seq<char>, b: Seq<char>, q: char)
    requires
        double_char(a, q) == double_char(b, q),
    ensures
        a == b,
{
    lemma_undouble_double(a, q);
    lemma_undouble_double(b, q);
}

/// A trimmed text is a piece of the original with no white space at either end.
pub proof fn lemma_trim_ends(s: Seq<char>)
    ensures
        trim(s).len() > 0 ==> !is_white_space(trim(s)[0]) && !is_white_space(trim(s).last()),
{
    lemma_trim_start_first(s);
    lemma_trim_end_prefix(trim_start(s));
}

proof fn lemma_trim_start_first(s: Seq<char>)
    ensures
        trim_start(s).len() > 0 ==> !is_white_space(trim_start(s)[0]),
    decreases s.len(),
{
    if s.len() > 0 && is_white_space(s[0]) {
        lemma_trim_start_first(s.drop_first());
    }
}

proof fn lemma_trim_end_prefix(u: Seq<char>)
    ensures
        trim_end(u).len() <= u.len(),
        trim_end(u) == u.subrange(0, trim_end(u).len() as int),
        trim_end(u).len() > 0 ==> !is_white_space(trim_end(u).last()),
    decreases u.len(),
{
    if u.len() > 0 && is_white_space(u.last()) {
        lemma_trim_end_prefix(u.drop_last());
        let k = trim_end(u).len() as int;
        assert(u.drop_last().subrange(0, k) =~= u.subrange(0, k));
    } else {
        assert(u.subrange(0, u.len() as int) =~= u);
    }
}

/// A text that has no white space at either end is its own trim.
pub proof fn lemma_trim_fixed(s: Seq<char>)
    requires
        s.len() > 0,
        !is_white_space(s[0]),
        !is_white_space(s.last()),
    ensures
        trim(s) == s,
{
}

proof fn lemma_contains_tail(s: Seq<char>, p: Seq<char>)
    requires
        s.len() > 0,
        !contains(s, p),
    ensures
        !contains(s.drop_first(), p),
{
    assert forall|k: int| !occurs_at(s.drop_first(), p, k) by {
        if occurs_at(s.drop_first(), p, k) {
            assert(s.subrange(k + 1, k + 1 + p.len()) =~= s.drop_first().subrange(k, k + p.len()));
            assert(occurs_at(s, p, k + 1));
        }
    }
}

proof fn lemma_starts_with_cons(s: Seq<char>, x: Seq<char>)
    requires
        s.len() > 0,
        x.len() > 0,
        s[0] == x[0],
        starts_with(s.drop_first(), x.drop_first()),
    ensures
        starts_with(s, x),
{
    assert(s.subrange(0, x.len() as int) =~= seq![s[0]] + s.drop_first().subrange(0, x.len() - 1));
    assert(x =~= seq![x[0]] + x.drop_first());
}

proof fn lemma_starts_with_tail(y: Seq<char>, c: char, x: Seq<char>)
    requires
        x.len() > 0,
        starts_with(seq![c] + y, x),
    ensures
        x[0] == c,
        starts_with(y, x.drop_first()),
{
    let s = seq![c] + y;
    assert(s.subrange(0, x.len() as int)[0] == x[0]);
    assert(y.subrange(0, x.len() - 1) =~= s.subrange(0, x.len() as int).drop_first());
}

proof fn lemma_double_prefix(s: Seq<char>, x: Seq<char>, q: char)
    requires
        !x.contains(q),
        starts_with(double_char(s, q), x),
    ensures
        starts_with(s, x),
    decreases s.len(),
{
    if x.len() == 0 {
        assert(s.subrange(0, 0) =~= x);
    } else if s.len() == 0 {
    } else if s[0] == q {
        let d = double_char(s, q);
        assert(d.subrange(0, x.len() as int)[0] == x[0]);
        assert(d[0] == q);
        assert(x.contains(x[0]));
    } else {
        let rest = double_char(s.drop_first(), q);
        lemma_starts_with_tail(rest, s[0], x);
        assert forall|c: char| x.drop_first().contains(c) implies x.contains(c) by {
            let j = choose|j: int| 0 <= j < x.drop_first().len() && x.drop_first()[j] == c;
            assert(x[j + 1] == c);
        }
        lemma_double_prefix(s.drop_first(), x.drop_first(), q);
        lemma_starts_with_cons(s, x);
    }
}

/// Doubling a character that the pattern lacks cannot create the pattern.
pub proof fn lemma_double_keeps_out(s: Seq<char>, p: Seq<char>, q: char)
    requires
        p.len() > 0,
        !p.contains(q),
        !contains(s, p),
    ensures
        !contains(double_char(s, q), p),
    decreases s.len(),
{
    if s.len() > 0 {
        let rest = double_char(s.drop_first(), q);
        lemma_contains_tail(s, p);
        lemma_double_keeps_out(s.drop_first(), p, q);
        let h: Seq<char> = if s[0] == q { seq![q, q] } else { seq![s[0]] };
        let d = double_char(s, q);
        assert(d == h + rest);
        assert forall|i: int| !occurs_at(d, p, i) by {
            if occurs_at(d, p, i) {
                if i >= h.len() {
                    assert(rest.subrange(i - h.len(), i - h.len() + p.len()) =~= d.subrange(i, i + p.len()));
                    assert(occurs_at(rest, p, i - h.len()));
                } else if s[0] == q {
                    assert(d.subrange(i, i + p.len())[0] == p[0]);
                    assert(d[i] == q);
                    assert(p.contains(p[0]));
                } else {
                    assert(i == 0);
                    lemma_starts_with_tail(rest, s[0], p);
                    assert forall|c: char| p.drop_first().contains(c) implies p.contains(c) by {
                        let j = choose|j: int| 0 <= j < p.drop_first().len() && p.drop_first()[j] == c;
                        assert(p[j + 1] == c);
                    }
                    lemma_double_prefix(s.drop_first(), p.drop_first(), q);
                    lemma_starts_with_cons(s, p);
                    assert(occurs_at(s, p, 0));
                }
            }
        }
    }
}

proof fn lemma_replace_prefix(u: Seq<char>, p: Seq<char>, r: Seq<char>, x: Seq<char>)
    requires
        p.len() > 0,
        r.len() > 0,
        !x.contains(r[0]),
        starts_with(replace_all(u, p, r), x),
    ensures
        starts_with(u, x),
    decreases u.len(),
{
    if x.len() == 0 {
        assert(u.subrange(0, 0) =~= x);
    } else if u.len() == 0 {
    } else if starts_with(u, p) {
        let out = replace_all(u, p, r);
        assert(out == r + replace_all(u.skip(p.len() as int), p, r));
        assert(out.subrange(0, x.len() as int)[0] == x[0]);
        assert(out[0] == r[0]);
        assert(x.contains(x[0]));
    } else {
        let rest = replace_all(u.drop_first(), p, r);
        lemma_starts_with_tail(rest, u[0], x);
        assert forall|c: char| x.drop_first().contains(c) implies x.contains(c) by {
            let j = choose|j: int| 0 <= j < x.drop_first().len() && x.drop_first()[j] == c;
            assert(x[j + 1] == c);
        }
        lemma_replace_prefix(u.drop_first(), p, r, x.drop_first());
        lemma_starts_with_cons(u, x);
    }
}

/// Replacing every occurrence of `p` with a text that neither holds `p` nor
/// begins or ends with a character of `p` leaves no occurrence of `p`.
pub proof fn lemma_replace_keeps_out(t: Seq<char>, p: Seq<char>, r: Seq<char>)
    requires
        p.len() > 0,
        r.len() > 0,
        !contains(r, p),
        !p.contains(r[0]),
        !p.contains(r.last()),
    ensures
        !contains(replace_all(t, p, r), p),
    decreases t.len(),
{
    if t.len() > 0 {
        let out = replace_all(t, p, r);
        if starts_with(t, p) {
            let rest = replace_all(t.skip(p.len() as int), p, r);
            lemma_replace_keeps_out(t.skip(p.len() as int), p, r);
            assert(out == r + rest);
            assert forall|i: int| !occurs_at(out, p, i) by {
                if occurs_at(out, p, i) {
                    if i + p.len() <= r.len() {
                        assert(r.subrange(i, i + p.len()) =~= out.subrange(i, i + p.len()));
                        assert(occurs_at(r, p, i));
                    } else if i >= r.len() {
                        assert(rest.subrange(i - r.len(), i - r.len() + p.len()) =~= out.subrange(i, i + p.len()));
                        assert(occurs_at(rest, p, i - r.len()));
                    } else {
                        let e = r.len() - 1;
                        assert(out.subrange(i, i + p.len())[e - i] == p[e - i]);
                        assert(out[e] == r.last());
                        assert(p.contains(p[e - i]));
                    }
                }
            }
        } else {
            let rest = replace_all(t.drop_first(), p, r);
            lemma_replace_keeps_out(t.drop_first(), p, r);
            assert(out == seq![t[0]] + rest);
            assert forall|i: int| !occurs_at(out, p, i) by {
                if occurs_at(out, p, i) {
                    if i >= 1 {
                        assert(rest.subrange(i - 1, i - 1 + p.len()) =~= out.subrange(i, i + p.len()));
                        assert(occurs_at(rest, p, i - 1));
                    } else {
                        assert(i == 0);
                        lemma_starts_with_tail(rest, t[0], p);
                        assert forall|c: char| p.drop_first().contains(c) implies p.contains(c) by {
                            let j = choose|j: int| 0 <= j < p.drop_first().len() && p.drop_first()[j] == c;
                            assert(p[j + 1] == c);
                        }
                        lemma_replace_prefix(t.drop_first(), p, r, p.drop_first());
                        lemma_starts_with_cons(t, p);
                    }
                }
            }
        }
    }
}


/// Doubling a character distributes over concatenation.
pub proof fn lemma_double_char_concat(a: Seq<char>, b: Seq<char>, q: char)
    ensures
        double_char(a + b, q) == double_char(a, q) + double_char(b, q),
    decreases a.len(),
{
    if a.len() > 0 {
        lemma_double_char_concat(a.drop_first(), b, q);
        assert((a + b).drop_first() =~= a.drop_first() + b);
        let h: Seq<char> = if a[0] == q { seq![q, q] } else { seq![a[0]] };
        assert((a + b)[0] == a[0]);
        assert(double_char(a + b, q) == h + double_char(a.drop_first() + b, q));
        assert(double_char(a, q) == h + double_char(a.drop_first(), q));
        assert(h + (double_char(a.drop_first(), q) + double_char(b, q)) =~= (h + double_char(
            a.drop_first(),
            q,
        )) + double_char(b, q));
    } else {
        assert(a + b =~= b);
        assert(double_char(a, q) + double_char(b, q) =~= double_char(b, q));
    }
}

/// A text without the character is left as it is by doubling.
pub proof fn lemma_double_char_absent(a: Seq<char>, q: char)
    requires
        !a.contains(q),
    ensures
        double_char(a, q) == a,
    decreases a.len(),
{
    if a.len() > 0 {
        assert(!a.drop_first().contains(q)) by {
            if a.drop_first().contains(q) {
                let j = choose|j: int| 0 <= j < a.drop_first().len() && a.drop_first()[j] == q;
                assert(a[j + 1] == q);
            }
        }
        lemma_double_char_absent(a.drop_first(), q);
        assert(a[0] != q) by {
            if a[0] == q {
                assert(a.contains(a[0]));
            }
        }
        assert(seq![a[0]] + a.drop_first() =~= a);
    }
}


proof fn lemma_trim_start_cut(s: Seq<char>) -> (k: int)
    ensures
        0 <= k <= s.len(),
        trim_start(s) == s.skip(k),
        forall|x: int| 0 <= x < k ==> is_white_space(#[trigger] s[x]),
    decreases s.len(),
{
    if s.len() > 0 && is_white_space(s[0]) {
        let k1 = lemma_trim_start_cut(s.drop_first());
        assert(s.drop_first().skip(k1) =~= s.skip(k1 + 1));
        assert forall|x: int| 0 <= x < k1 + 1 implies is_white_space(#[trigger] s[x]) by {
            if x > 0 {
                assert(s[x] == s.drop_first()[x - 1]);
            }
        }
        k1 + 1
    } else {
        assert(s.skip(0) =~= s);
        0
    }
}

proof fn lemma_trim_end_cut(u: Seq<char>) -> (m: int)
    ensures
        0 <= m <= u.len(),
        trim_end(u) == u.subrange(0, m),
        forall|x: int| m <= x < u.len() ==> is_white_space(#[trigger] u[x]),
    decreases u.len(),
{
    if u.len() > 0 && is_white_space(u.last()) {
        let m1 = lemma_trim_end_cut(u.drop_last());
        assert(u.drop_last().subrange(0, m1) =~= u.subrange(0, m1));
        assert forall|x: int| m1 <= x < u.len() implies is_white_space(#[trigger] u[x]) by {
            if x < u.len() - 1 {
                assert(u[x] == u.drop_last()[x]);
            }
        }
        m1
    } else {
        assert(u.subrange(0, u.len() as int) =~= u);
        u.len() as int
    }
}

/// Trimming only takes white space off the two ends: the trimmed text is a
/// piece of the original, everything before and after it is white space, and
/// it neither begins nor ends with white space.
pub proof fn lemma_trim_cuts_white_space(s: Seq<char>)
    ensures
        exists|i: int, j: int|
            0 <= i <= j <= s.len() && #[trigger] s.subrange(i, j) == trim(s) && (forall|x: int|
                0 <= x < i ==> is_white_space(#[trigger] s[x])) && (forall|x: int|
                j <= x < s.len() ==> is_white_space(#[trigger] s[x])),
        trim(s).len() > 0 ==> !is_white_space(trim(s)[0]) && !is_white_space(trim(s).last()),
{
    let k = lemma_trim_start_cut(s);
    let u = s.skip(k);
    let m = lemma_trim_end_cut(u);
    assert(u.subrange(0, m) =~= s.subrange(k, k + m));
    assert forall|x: int| k + m <= x < s.len() implies is_white_space(#[trigger] s[x]) by {
        assert(s[x] == u[x - k]);
    }
    assert(s.subrange(k, k + m) == trim(s));
    lemma_trim_ends(s);
}

} // verus!
