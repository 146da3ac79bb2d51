//! Character-level text operations shared by the log and config readers:
//! substring search, line splitting, whitespace trimming, decimal rendering.
//! Every operation works on the `Seq<char>` view of a string.
use vstd::prelude::*;

verus! {

// ---------------------------------------------------------------------------
// Specifications
// ---------------------------------------------------------------------------
/// `needle` occurs in `hay` starting at index `i`.
pub open spec fn occurs_at(hay: Seq<char>, needle: Seq<char>, i: int) -> bool {
    &&& 0 <= i
    &&& i + needle.len() <= hay.len()
    &&& hay.subrange(i, i + needle.len()) == needle
}

/// `needle` is a substring of `hay` (what `str::contains` decides).
pub open spec fn has_substr(hay: Seq<char>, needle: Seq<char>) -> bool {
    exists|i: int| occurs_at(hay, needle, i)
}

/// `hay` begins with `prefix`.
pub open spec fn starts_with(hay: Seq<char>, prefix: Seq<char>) -> bool {
    occurs_at(hay, prefix, 0)
}

/// The characters that `char::is_whitespace` accepts: the Unicode
/// `White_Space` property.
pub open spec fn is_ws(c: char) -> bool {
    let u = c as int;
    ||| (0x09 <= u && u <= 0x0d)
    ||| u == 0x20
    ||| u == 0x85
    ||| u == 0xa0
    ||| u == 0x1680
    ||| (0x2000 <= u && u <= 0x200a)
    ||| u == 0x2028
    ||| u == 0x2029
    ||| u == 0x202f
    ||| u == 0x205f
    ||| u == 0x3000
}

/// `s` without its leading whitespace.
pub open spec fn trim_start(s: Seq<char>) -> Seq<char>
    decreases s.len(),
{
    if s.len() > 0 && is_ws(s[0]) {
        trim_start(s.drop_first())
    } else {
        s
    }
}

/// `s` without its trailing whitespace.
pub open spec fn trim_end(s: Seq<char>) -> Seq<char>
    decreases s.len(),
{
    if s.len() > 0 && is_ws(s.last()) {
        trim_end(s.drop_last())
    } else {
        s
    }
}

/// `s` without leading and trailing whitespace (`str::trim`).
pub open spec fn trim(s: Seq<char>) -> Seq<char> {
    trim_end(trim_start(s))
}

/// `s` with every leading repetition of `pat` removed
/// (`str::trim_start_matches` with a string pattern).
pub open spec fn strip_all_prefixes(s: Seq<char>, pat: Seq<char>) -> Seq<char>
    decreases s.len(),
{
    if pat.len() > 0 && starts_with(s, pat) {
        strip_all_prefixes(s.skip(pat.len() as int), pat)
    } else {
        s
    }
}

/// A line with one trailing carriage return removed.
pub open spec fn strip_cr(line: Seq<char>) -> Seq<char> {
    if line.len() > 0 && line.last() == '\r' {
        line.drop_last()
    } else {
        line
    }
}

/// The lines completed so far in `s`, and the unterminated piece after the
/// last newline.  A newline ends a line; a carriage return just before it is
/// not part of the line.
pub open spec fn line_state(s: Seq<char>) -> (Seq<Seq<char>>, Seq<char>)
    decreases s.len(),
{
    if s.len() == 0 {
        (Seq::empty(), Seq::empty())
    } else {
        let prev = line_state(s.drop_last());
        if s.last() == '\n' {
            (prev.0.push(strip_cr(prev.1)), Seq::empty())
        } else {
            (prev.0, prev.1.push(s.last()))
        }
    }
}

/// The lines of `s` as `str::lines` yields them: the final line ending is
/// optional, and a final line without a newline keeps any carriage return.
pub open spec fn lines(s: Seq<char>) -> Seq<Seq<char>> {
    let st = line_state(s);
    if st.1.len() > 0 {
        st.0.push(st.1)
    } else {
        st.0
    }
}

/// The character of a decimal digit.
pub open spec fn digit_char(d: nat) -> char {
    if d == 0 { '0' }
    else if d == 1 { '1' }
    else if d == 2 { '2' }
    else if d == 3 { '3' }
    else if d == 4 { '4' }
    else if d == 5 { '5' }
    else if d == 6 { '6' }
    else if d == 7 { '7' }
    else if d == 8 { '8' }
    else { '9' }
}

/// The decimal representation of `n`, as integers are displayed.
pub open spec fn decimal(n: nat) -> Seq<char>
    decreases n,
{
    if n < 10 {
        seq![digit_char(n)]
    } else {
        decimal(n / 10).push(digit_char(n % 10))
    }
}

/// Number of bytes that `c` takes in UTF-8.
pub open spec fn utf8_width(c: char) -> nat {
    let u = c as int;
    if u < 0x80 { 1 }
    else if u < 0x800 { 2 }
    else if u < 0x10000 { 3 }
    else { 4 }
}

/// Number of bytes that `s` takes in UTF-8.
pub open spec fn utf8_len(s: Seq<char>) -> nat
    decreases s.len(),
{
    if s.len() == 0 {
        0
    } else {
        utf8_len(s.drop_last()) + utf8_width(s.last())
    }
}

/// The prefix of `s` made of its first `n` bytes, when byte `n` falls on a
/// character boundary (what `str::get(..n)` returns).
pub open spec fn byte_prefix(s: Seq<char>, n: nat) -> Option<Seq<char>> {
    if exists|k: int| 0 <= k <= s.len() && utf8_len(s.take(k)) == n {
        let k = choose|k: int| 0 <= k <= s.len() && utf8_len(s.take(k)) == n;
        Some(s.take(k))
    } else {
        None
    }
}

/// `a` sorts strictly before `b` in the lexicographic order of code points
/// (the order of `String`, whose bytes are UTF-8).
pub open spec fn lex_lt(a: Seq<char>, b: Seq<char>) -> bool
    decreases a.len(),
{
    if a.len() == 0 {
        b.len() > 0
    } else if b.len() == 0 {
        false
    } else if (a[0] as int) < (b[0] as int) {
        true
    } else if a[0] == b[0] {
        lex_lt(a.drop_first(), b.drop_first())
    } else {
        false
    }
}

// ---------------------------------------------------------------------------
// Lemmas
// ---------------------------------------------------------------------------
/// A string never has more lines than characters.
pub proof fn lemma_lines_len(s: Seq<char>)
    ensures
        lines(s).len() <= s.len(),
{
    lemma_line_state_len(s);
}

proof fn lemma_line_state_len(s: Seq<char>)
    ensures
        line_state(s).0.len() + (if line_state(s).1.len() > 0 { 1int } else { 0int }) <= s.len(),
        line_state(s).1.len() <= s.len(),
    decreases s.len(),
{
    if s.len() > 0 {
        lemma_line_state_len(s.drop_last());
    }
}

/// The byte length of a sequence grows with each character.
proof fn lemma_utf8_len_take(s: Seq<char>, k: int)
    requires
        0 <= k < s.len(),
    ensures
        utf8_len(s.take(k + 1)) == utf8_len(s.take(k)) + utf8_width(s[k]),
{
    assert(s.take(k + 1).drop_last() =~= s.take(k));
}

proof fn lemma_utf8_len_mono(s: Seq<char>, j: int, k: int)
    requires
        0 <= j <= k <= s.len(),
    ensures
        utf8_len(s.take(j)) + (k - j) <= utf8_len(s.take(k)),
    decreases k - j,
{
    if j < k {
        lemma_utf8_len_mono(s, j, k - 1);
        lemma_utf8_len_take(s, k - 1);
    }
}

/// Strict lexicographic order is irreflexive.
pub proof fn lemma_lex_lt_irrefl(a: Seq<char>)
    ensures
        !lex_lt(a, a),
    decreases a.len(),
{
    if a.len() > 0 {
        lemma_lex_lt_irrefl(a.drop_first());
    }
}

/// Strict lexicographic order is asymmetric.
pub proof fn lemma_lex_lt_asym(a: Seq<char>, b: Seq<char>)
    ensures
        !(lex_lt(a, b) && lex_lt(b, a)),
    decreases a.len(),
{
    if a.len() > 0 && b.len() > 0 && a[0] == b[0] {
        lemma_lex_lt_asym(a.drop_first(), b.drop_first());
    }
}

/// Strict lexicographic order is transitive.
pub proof fn lemma_lex_lt_trans(a: Seq<char>, b: Seq<char>, c: Seq<char>)
    requires
        lex_lt(a, b),
        lex_lt(b, c),
    ensures
        lex_lt(a, c),
    decreases a.len(),
{
    if a.len() > 0 && b.len() > 0 && c.len() > 0 && a[0] == b[0] && b[0] == c[0] {
        lemma_lex_lt_trans(a.drop_first(), b.drop_first(), c.drop_first());
    }
}

/// Two different strings are ordered one way or the other.
pub proof fn lemma_lex_lt_total(a: Seq<char>, b: Seq<char>)
    requires
        a != b,
    ensures
        lex_lt(a, b) || lex_lt(b, a),
    decreases a.len(),
{
    if a.len() > 0 && b.len() > 0 {
        if a[0] != b[0] {
            assert((a[0] as int) != (b[0] as int));
        } else {
            if a.drop_first() == b.drop_first() {
                assert(a =~= seq![a[0]] + a.drop_first());
                assert(b =~= seq![b[0]] + b.drop_first());
            }
            lemma_lex_lt_total(a.drop_first(), b.drop_first());
        }
    } else if a.len() == 0 && b.len() == 0 {
        assert(a =~= b);
    }
}

// ---------------------------------------------------------------------------
// Replacing text
// ---------------------------------------------------------------------------
/// `s` with every occurrence of `from` replaced by `to`, scanning from the
/// left and resuming after each replacement (what `str::replace` does for a
/// non-empty `from`).
pub open spec fn replaced(s: Seq<char>, from: Seq<char>, to: Seq<char>) -> Seq<char>
    decreases s.len(),
{
    if s.len() == 0 {
        s
    } else if from.len() > 0 && starts_with(s, from) {
        to + replaced(s.skip(from.len() as int), from, to)
    } else {
        seq![s[0]] + replaced(s.drop_first(), from, to)
    }
}

/// No occurrence of `f` in `a + b` starts in `a` and ends in `b`.
pub open spec fn no_straddle(a: Seq<char>, b: Seq<char>, f: Seq<char>) -> bool {
    forall|i: int| 0 <= i < a.len() < i + f.len() ==> !#[trigger] occurs_at(a + b, f, i)
}

/// Replacing works piece by piece when no occurrence straddles the pieces.
pub proof fn lemma_replaced_concat(a: Seq<char>, b: Seq<char>, f: Seq<char>, t: Seq<char>)
    requires
        f.len() > 0,
        no_straddle(a, b, f),
    ensures
        replaced(a + b, f, t) == replaced(a, f, t) + replaced(b, f, t),
    decreases a.len(),
{
    let n = f.len() as int;
    if a.len() == 0 {
        assert(a + b =~= b);
        assert(replaced(a, f, t) + replaced(b, f, t) =~= replaced(b, f, t));
    } else if starts_with(a + b, f) {
        assert(occurs_at(a + b, f, 0));
        assert(n <= a.len());
        assert(a.subrange(0, n) =~= (a + b).subrange(0, n));
        assert(starts_with(a, f));
        let a2 = a.skip(n);
        assert((a + b).skip(n) =~= a2 + b);
        assert forall|i: int| 0 <= i < a2.len() < i + f.len() implies !#[trigger] occurs_at(a2 + b, f, i) by {
            if occurs_at(a2 + b, f, i) {
                assert((a2 + b).subrange(i, i + n) =~= (a + b).subrange(i + n, i + n + n));
                assert(occurs_at(a + b, f, i + n));
            }
        }
        lemma_replaced_concat(a2, b, f, t);
        assert(t + (replaced(a2, f, t) + replaced(b, f, t)) =~= (t + replaced(a2, f, t)) + replaced(b, f, t));
    } else {
        if starts_with(a, f) {
            assert((a + b).subrange(0, n) =~= a.subrange(0, n));
        }
        let a2 = a.drop_first();
        assert((a + b).drop_first() =~= a2 + b);
        assert((a + b)[0] == a[0]);
        assert forall|i: int| 0 <= i < a2.len() < i + f.len() implies !#[trigger] occurs_at(a2 + b, f, i) by {
            if occurs_at(a2 + b, f, i) {
                assert((a2 + b).subrange(i, i + n) =~= (a + b).subrange(i + 1, i + 1 + n));
                assert(occurs_at(a + b, f, i + 1));
            }
        }
        lemma_replaced_concat(a2, b, f, t);
        assert(seq![a[0]] + (replaced(a2, f, t) + replaced(b, f, t)) =~= (seq![a[0]] + replaced(a2, f, t))
            + replaced(b, f, t));
    }
}

/// A text where every character that could start `f` is followed, `d`
/// places later, by a character other than the `d`-th of `f` is left as it is.
pub proof fn lemma_replaced_mismatch(s: Seq<char>, f: Seq<char>, t: Seq<char>, d: int)
    requires
        0 <= d < f.len(),
        forall|i: int| 0 <= i && i + f.len() <= s.len() && #[trigger] s[i] == f[0] ==> s[i + d] != f[d],
    ensures
        replaced(s, f, t) == s,
    decreases s.len(),
{
    if s.len() > 0 {
        if starts_with(s, f) {
            assert(s.subrange(0, f.len() as int)[0] == s[0]);
            assert(s.subrange(0, f.len() as int)[d] == s[d]);
        }
        let s2 = s.drop_first();
        assert forall|i: int| 0 <= i && i + f.len() <= s2.len() && #[trigger] s2[i] == f[0] implies s2[i + d] != f[d] by {
            assert(s2[i] == s[i + 1]);
            assert(s2[i + d] == s[i + 1 + d]);
        }
        lemma_replaced_mismatch(s2, f, t, d);
        assert(seq![s[0]] + s2 =~= s);
    }
}

/// `f` itself is replaced by `t`.
pub proof fn lemma_replaced_self(f: Seq<char>, t: Seq<char>)
    requires
        f.len() > 0,
    ensures
        replaced(f, f, t) == t,
{
    assert(f.subrange(0, f.len() as int) =~= f);
    assert(starts_with(f, f));
    assert(f.skip(f.len() as int) =~= Seq::<char>::empty());
    assert(replaced(Seq::<char>::empty(), f, t) == Seq::<char>::empty());
    assert(t + Seq::<char>::empty() =~= t);
}

/// No occurrence straddles `a` and `b` when, near its end, `a` has no
/// character that starts `f` followed by the second character of `f`.
pub proof fn lemma_no_straddle_left(a: Seq<char>, b: Seq<char>, f: Seq<char>)
    requires
        f.len() >= 2,
        forall|i: int|
            0 <= i < a.len() < i + f.len() ==> #[trigger] a[i] != f[0] || (i + 1 < a.len() && a[i + 1]
                != f[1]),
    ensures
        no_straddle(a, b, f),
{
    assert forall|i: int| 0 <= i < a.len() < i + f.len() implies !#[trigger] occurs_at(a + b, f, i) by {
        if occurs_at(a + b, f, i) {
            assert((a + b).subrange(i, i + f.len())[0] == (a + b)[i]);
            assert((a + b).subrange(i, i + f.len())[1] == (a + b)[i + 1]);
            assert(a[i] == f[0]);
            if i + 1 < a.len() {
                assert(a[i + 1] == f[1]);
            }
        }
    }
}

/// No occurrence straddles `a` and `b` when `b` starts with a character that
/// `f` does not hold.
pub proof fn lemma_no_straddle_right(a: Seq<char>, b: Seq<char>, f: Seq<char>)
    requires
        b.len() > 0,
        forall|j: int| 0 <= j < f.len() ==> f[j] != b[0],
    ensures
        no_straddle(a, b, f),
{
    assert forall|i: int| 0 <= i < a.len() < i + f.len() implies !#[trigger] occurs_at(a + b, f, i) by {
        if occurs_at(a + b, f, i) {
            let m = a.len() - i;
            assert((a + b).subrange(i, i + f.len())[m] == (a + b)[a.len() as int]);
        }
    }
}

/// No occurrence straddles `a` and `b` when `a` has no '"', `f` has its
/// first '"' at index `q`, and `b` starts with none of the characters `f`
/// has after its start and up to that '"', except a '"' not followed by the
/// character after it in `f`.
pub proof fn lemma_no_straddle_quote(a: Seq<char>, b: Seq<char>, f: Seq<char>, q: int)
    requires
        0 < q,
        q + 1 < f.len(),
        f[q] == '"',
        b.len() >= 2,
        forall|i: int| 0 <= i < a.len() ==> a[i] != '"',
        forall|k: int| 0 < k < q ==> f[k] != b[0],
        b[0] != '"' || b[1] != f[q + 1],
    ensures
        no_straddle(a, b, f),
{
    assert forall|i: int| 0 <= i < a.len() < i + f.len() implies !#[trigger] occurs_at(a + b, f, i) by {
        if occurs_at(a + b, f, i) {
            let m = a.len() - i;
            let sub = (a + b).subrange(i, i + f.len());
            if m > q {
                assert(sub[q] == a[i + q]);
            } else {
                assert(sub[m] == b[0]);
                if m == q {
                    assert(sub[m + 1] == b[1]);
                }
            }
        }
    }
}

// ---------------------------------------------------------------------------
// Executable operations
// ---------------------------------------------------------------------------
/// Appends one character to a string (`String::push`).
#[verifier::external_body]
pub(crate) fn push_char(s: &mut String, c: char)
    ensures
        final(s)@ == old(s)@.push(c),
{
    s.push(c);
}

/// The characters of `s`, in order.
pub fn to_chars(s: &str) -> (v: Vec<char>)
    ensures
        v@ == s@,
{
    let mut v: Vec<char> = Vec::new();
    for c in it: s.chars()
        invariant
            v@ == it.seq().take(it.index()),
            it.seq() == s@,
    {
        v.push(c);
    }
    v
}

/// A string holding the characters `v[from..to]`.
pub fn string_of_range(v: &Vec<char>, from: usize, to: usize) -> (s: String)
    requires
        from <= to <= v.len(),
    ensures
        s@ == v@.subrange(from as int, to as int),
{
    let mut s = String::new();
    let mut i = from;
    while i < to
        invariant
            from <= i <= to <= v.len(),
            s@ == v@.subrange(from as int, i as int),
        decreases to - i,
    {
        push_char(&mut s, v[i]);
        assert(v@.subrange(from as int, i + 1) =~= v@.subrange(from as int, i as int).push(v@[i as int]));
        i = i + 1;
    }
    s
}

/// A string holding the characters of `v`.
pub fn string_of(v: &Vec<char>) -> (s: String)
    ensures
        s@ == v@,
{
    let s = string_of_range(v, 0, v.len());
    assert(v@.subrange(0, v@.len() as int) =~= v@);
    s
}

/// A new string with the characters of `s`.
pub fn owned(s: &str) -> (r: String)
    ensures
        r@ == s@,
{
    let mut r = String::new();
    r.append(s);
    r
}

/// Whether `needle` occurs in `hay` at index `i`.
pub fn occurs_at_exec(hay: &Vec<char>, needle: &Vec<char>, i: usize) -> (b: bool)
    requires
        i <= hay.len(),
    ensures
        b == occurs_at(hay@, needle@, i as int),
{
    if needle.len() > hay.len() - i {
        return false;
    }
    let mut j: usize = 0;
    while j < needle.len()
        invariant
            i + needle.len() <= hay.len(),
            j <= needle.len(),
            forall|k: int| 0 <= k < j ==> hay@[i + k] == needle@[k],
        decreases needle.len() - j,
    {
        if hay[i + j] != needle[j] {
            assert(hay@.subrange(i as int, i + needle.len())[j as int] != needle@[j as int]);
            return false;
        }
        j = j + 1;
    }
    assert(hay@.subrange(i as int, i + needle.len()) =~= needle@);
    true
}

/// Whether `needle` is a substring of `hay`.
pub fn contains_chars(hay: &Vec<char>, needle: &Vec<char>) -> (b: bool)
    ensures
        b == has_substr(hay@, needle@),
{
    if needle.len() > hay.len() {
        assert forall|i: int| !occurs_at(hay@, needle@, i) by {}
        return false;
    }
    let last = hay.len() - needle.len();
    let mut i: usize = 0;
    while i <= last
        invariant_except_break
            i <= last,
        invariant
            last == hay.len() - needle.len(),
            forall|k: int| 0 <= k < i ==> !occurs_at(hay@, needle@, k),
        ensures
            forall|k: int| 0 <= k <= last ==> !occurs_at(hay@, needle@, k),
        decreases last - i,
    {
        if occurs_at_exec(hay, needle, i) {
            return true;
        }
        if i == last {
            break;
        }
        i = i + 1;
    }
    assert forall|k: int| !occurs_at(hay@, needle@, k) by {
        if 0 <= k && k < i {
        }
    }
    false
}

/// Whether `needle` is a substring of `hay`.
pub fn contains_str(hay: &Vec<char>, needle: &str) -> (b: bool)
    ensures
        b == has_substr(hay@, needle@),
{
    let n = to_chars(needle);
    contains_chars(hay, &n)
}

/// Whether `hay` begins with `prefix`.
pub fn starts_with_str(hay: &Vec<char>, prefix: &str) -> (b: bool)
    ensures
        b == starts_with(hay@, prefix@),
{
    let p = to_chars(prefix);
    occurs_at_exec(hay, &p, 0)
}

/// Whether two character sequences are equal.
pub fn chars_eq(a: &Vec<char>, b: &Vec<char>) -> (r: bool)
    ensures
        r == (a@ == b@),
{
    if a.len() != b.len() {
        return false;
    }
    let r = occurs_at_exec(a, b, 0);
    assert(a@.subrange(0, b@.len() as int) =~= a@);
    r
}

/// Whether the string `s` equals the literal `lit`.
pub fn eq_str(s: &str, lit: &str) -> (r: bool)
    ensures
        r == (s@ == lit@),
{
    let a = to_chars(s);
    let b = to_chars(lit);
    chars_eq(&a, &b)
}

/// `s` without leading and trailing whitespace.
pub fn trim_chars(s: &Vec<char>) -> (r: Vec<char>)
    ensures
        r@ == trim(s@),
{
    let mut a: usize = 0;
    assert(s@.skip(0) =~= s@);
    while a < s.len() && is_ws_exec(s[a])
        invariant
            a <= s.len(),
            trim_start(s@) == trim_start(s@.skip(a as int)),
        decreases s.len() - a,
    {
        assert(s@.skip(a as int).drop_first() =~= s@.skip(a + 1));
        a = a + 1;
    }
    let ghost mid = s@.skip(a as int);
    assert(trim_start(s@) == mid) by {
        if mid.len() > 0 {
            assert(mid[0] == s@[a as int]);
        }
    }
    let mut b: usize = s.len();
    while b > a && is_ws_exec(s[b - 1])
        invariant
            a <= b <= s.len(),
            mid == s@.skip(a as int),
            trim_end(mid) == trim_end(s@.subrange(a as int, b as int)),
        decreases b,
    {
        assert(s@.subrange(a as int, b as int).drop_last() =~= s@.subrange(a as int, b - 1));
        b = b - 1;
    }
    let ghost fin = s@.subrange(a as int, b as int);
    assert(trim_end(fin) == fin) by {
        if fin.len() > 0 {
            assert(fin.last() == s@[b - 1]);
        }
    }
    assert(s@.skip(a as int) =~= s@.subrange(a as int, s@.len() as int));
    let mut r: Vec<char> = Vec::new();
    let mut i = a;
    while i < b
        invariant
            a <= i <= b <= s.len(),
            r@ == s@.subrange(a as int, i as int),
        decreases b - i,
    {
        r.push(s[i]);
        assert(s@.subrange(a as int, i + 1) =~= s@.subrange(a as int, i as int).push(s@[i as int]));
        i = i + 1;
    }
    r
}

/// The code point of `c`.
pub fn code_point(c: char) -> (r: u32)
    ensures
        r as int == c as int,
{
    c as u32
}

/// Whether `c` is whitespace.
pub fn is_ws_exec(c: char) -> (b: bool)
    ensures
        b == is_ws(c),
{
    let u = code_point(c);
    (0x09 <= u && u <= 0x0d) || u == 0x20 || u == 0x85 || u == 0xa0 || u == 0x1680 || (0x2000
        <= u && u <= 0x200a) || u == 0x2028 || u == 0x2029 || u == 0x202f || u == 0x205f || u
        == 0x3000
}

/// The lines of `s`.
pub fn split_lines(s: &Vec<char>) -> (r: Vec<Vec<char>>)
    ensures
        r@.len() == lines(s@).len(),
        forall|i: int| 0 <= i < r@.len() ==> #[trigger] r@[i]@ == lines(s@)[i],
{
    let mut done: Vec<Vec<char>> = Vec::new();
    let mut cur: Vec<char> = Vec::new();
    let mut i: usize = 0;
    while i < s.len()
        invariant
            i <= s.len(),
            done@.len() == line_state(s@.take(i as int)).0.len(),
            forall|k: int| 0 <= k < done@.len() ==> #[trigger] done@[k]@ == line_state(s@.take(i as int)).0[k],
            cur@ == line_state(s@.take(i as int)).1,
        decreases s.len() - i,
    {
        let c = s[i];
        assert(s@.take(i + 1).drop_last() =~= s@.take(i as int));
        if c == '\n' {
            let mut line = cur;
            if line.len() > 0 && line[line.len() - 1] == '\r' {
                line.pop();
                assert(line@ =~= strip_cr(line_state(s@.take(i as int)).1));
            }
            done.push(line);
            cur = Vec::new();
        } else {
            cur.push(c);
        }
        i = i + 1;
    }
    assert(s@.take(s@.len() as int) =~= s@);
    if cur.len() > 0 {
        done.push(cur);
    }
    done
}

/// The first `n` characters of `s` (all of it when shorter).
pub fn take_chars(s: &Vec<char>, n: usize) -> (r: String)
    ensures
        r@ == s@.take(if n < s@.len() { n as int } else { s@.len() as int }),
{
    let end = if n < s.len() { n } else { s.len() };
    let r = string_of_range(s, 0, end);
    assert(s@.subrange(0, end as int) =~= s@.take(end as int));
    r
}

/// The prefix of `s` made of its first `n` UTF-8 bytes, when that ends on a
/// character boundary.
pub fn prefix_of_bytes(s: &Vec<char>, n: usize) -> (r: Option<String>)
    requires
        n <= 1024,
    ensures
        r matches Some(p) ==> byte_prefix(s@, n as nat) == Some(p@),
        r is None ==> byte_prefix(s@, n as nat) is None,
{
    let mut k: usize = 0;
    let mut bytes: usize = 0;
    while k < s.len() && bytes < n
        invariant
            k <= s.len(),
            bytes == utf8_len(s@.take(k as int)),
            bytes <= n + 3,
            n <= 1024,
            forall|j: int| 0 <= j < k ==> utf8_len(#[trigger] s@.take(j)) < n,
        decreases s.len() - k,
    {
        proof {
            lemma_utf8_len_take(s@, k as int);
        }
        let c = s[k];
        let u = code_point(c);
        let w: usize = if u < 0x80 {
            1
        } else if u < 0x800 {
            2
        } else if u < 0x10000 {
            3
        } else {
            4
        };
        bytes = bytes + w;
        k = k + 1;
    }
    if bytes == n {
        let r = string_of_range(s, 0, k);
        proof {
            assert(s@.subrange(0, k as int) =~= s@.take(k as int));
            lemma_byte_prefix_unique(s@, n as nat, k as int);
        }
        Some(r)
    } else {
        proof {
            assert forall|j: int| 0 <= j <= s@.len() implies utf8_len(#[trigger] s@.take(j)) != n by {
                if j > k {
                    lemma_utf8_len_mono(s@, k as int, j);
                }
            }
        }
        None
    }
}

/// Whether `s` takes at most `n` bytes in UTF-8.
pub fn utf8_len_at_most(s: &Vec<char>, n: usize) -> (b: bool)
    requires
        n <= 1024,
    ensures
        b == (utf8_len(s@) <= n),
{
    let mut k: usize = 0;
    let mut bytes: usize = 0;
    while k < s.len() && bytes <= n
        invariant
            k <= s.len(),
            bytes == utf8_len(s@.take(k as int)),
            bytes <= n + 4,
            n <= 1024,
        decreases s.len() - k,
    {
        proof {
            lemma_utf8_len_take(s@, k as int);
        }
        let u = code_point(s[k]);
        let w: usize = if u < 0x80 {
            1
        } else if u < 0x800 {
            2
        } else if u < 0x10000 {
            3
        } else {
            4
        };
        bytes = bytes + w;
        k = k + 1;
    }
    proof {
        lemma_utf8_len_mono(s@, k as int, s@.len() as int);
        assert(s@.take(s@.len() as int) =~= s@);
    }
    bytes <= n
}

/// A prefix ending at the end of `s` ends on a character boundary: when `s`
/// takes exactly `n` bytes, its `n`-byte prefix is all of it.
pub proof fn lemma_byte_prefix_whole(s: Seq<char>)
    ensures
        byte_prefix(s, utf8_len(s)) is Some,
{
    assert(s.take(s.len() as int) =~= s);
    assert(utf8_len(s.take(s.len() as int)) == utf8_len(s));
}

proof fn lemma_byte_prefix_unique(s: Seq<char>, n: nat, k: int)
    requires
        0 <= k <= s.len(),
        utf8_len(s.take(k)) == n,
    ensures
        byte_prefix(s, n) == Some(s.take(k)),
{
    let j = choose|j: int| 0 <= j <= s.len() && utf8_len(s.take(j)) == n;
    if j < k {
        lemma_utf8_len_mono(s, j, k);
    } else if k < j {
        lemma_utf8_len_mono(s, k, j);
    }
}

/// The digit character of `d`.
fn digit_exec(d: u64) -> (c: char)
    requires
        d < 10,
    ensures
        c == digit_char(d as nat),
{
    if d == 0 { '0' }
    else if d == 1 { '1' }
    else if d == 2 { '2' }
    else if d == 3 { '3' }
    else if d == 4 { '4' }
    else if d == 5 { '5' }
    else if d == 6 { '6' }
    else if d == 7 { '7' }
    else if d == 8 { '8' }
    else { '9' }
}

/// The decimal digits of `n`, most significant first.
pub fn decimal_chars(n: u64) -> (r: Vec<char>)
    ensures
        r@ == decimal(n as nat),
    decreases n,
{
    if n < 10 {
        let mut r = Vec::new();
        r.push(digit_exec(n));
        r
    } else {
        let mut r = decimal_chars(n / 10);
        r.push(digit_exec(n % 10));
        r
    }
}

/// `n` in decimal, with leading zeros up to `w` digits.
pub open spec fn padded_decimal(n: nat, w: nat) -> Seq<char> {
    let d = decimal(n);
    if d.len() < w {
        Seq::new((w - d.len()) as nat, |i: int| '0') + d
    } else {
        d
    }
}

/// Appends `n` in decimal, with leading zeros up to `w` digits, to `s`.
pub fn push_padded_decimal(s: &mut String, n: u64, w: usize)
    ensures
        final(s)@ == old(s)@ + padded_decimal(n as nat, w as nat),
{
    let d = decimal_chars(n);
    let ghost start = s@;
    let ghost zeros = if d@.len() < w { Seq::new((w - d@.len()) as nat, |i: int| '0') } else { Seq::<char>::empty() };
    let mut k: usize = d.len();
    while k < w
        invariant
            d.len() <= k <= if d.len() < w { w } else { d.len() },
            d@ == decimal(n as nat),
            s@ == start + Seq::new((k - d.len()) as nat, |i: int| '0'),
        decreases w - k,
    {
        push_char(s, '0');
        assert(Seq::new((k + 1 - d.len()) as nat, |i: int| '0') =~= Seq::new(
            (k - d.len()) as nat,
            |i: int| '0',
        ).push('0'));
        k = k + 1;
    }
    assert(s@ =~= start + zeros);
    let ghost mid = s@;
    let mut i: usize = 0;
    while i < d.len()
        invariant
            i <= d.len(),
            d@ == decimal(n as nat),
            s@ == mid + d@.take(i as int),
        decreases d.len() - i,
    {
        push_char(s, d[i]);
        assert(d@.take(i + 1) =~= d@.take(i as int).push(d@[i as int]));
        i = i + 1;
    }
    assert(d@.take(d@.len() as int) =~= d@);
    assert(s@ =~= start + padded_decimal(n as nat, w as nat));
}

/// Appends the decimal representation of `n` to `s`.
pub fn push_decimal(s: &mut String, n: u64)
    ensures
        final(s)@ == old(s)@ + decimal(n as nat),
{
    let d = decimal_chars(n);
    let ghost start = s@;
    let mut i: usize = 0;
    while i < d.len()
        invariant
            i <= d.len(),
            d@ == decimal(n as nat),
            s@ == start + d@.take(i as int),
        decreases d.len() - i,
    {
        push_char(s, d[i]);
        assert(d@.take(i + 1) =~= d@.take(i as int).push(d@[i as int]));
        i = i + 1;
    }
    assert(d@.take(d@.len() as int) =~= d@);
}

/// Whether `a` sorts strictly before `b`.
pub fn lex_lt_exec(a: &Vec<char>, b: &Vec<char>) -> (r: bool)
    ensures
        r == lex_lt(a@, b@),
{
    let mut i: usize = 0;
    assert(a@.skip(0) =~= a@);
    assert(b@.skip(0) =~= b@);
    while i < a.len() && i < b.len() && a[i] == b[i]
        invariant
            i <= a.len(),
            i <= b.len(),
            lex_lt(a@, b@) == lex_lt(a@.skip(i as int), b@.skip(i as int)),
        decreases a.len() - i,
    {
        assert(a@.skip(i as int).drop_first() =~= a@.skip(i + 1));
        assert(b@.skip(i as int).drop_first() =~= b@.skip(i + 1));
        i = i + 1;
    }
    if i == a.len() {
        i < b.len()
    } else if i == b.len() {
        false
    } else {
        assert(a@.skip(i as int)[0] == a@[i as int]);
        assert(b@.skip(i as int)[0] == b@[i as int]);
        code_point(a[i]) < code_point(b[i])
    }
}

/// `s` with every leading repetition of `pat` removed.
pub fn strip_prefixes(s: &Vec<char>, pat: &str) -> (r: Vec<char>)
    ensures
        r@ == strip_all_prefixes(s@, pat@),
{
    let p = to_chars(pat);
    let mut i: usize = 0;
    assert(s@.skip(0) =~= s@);
    if p.len() == 0 {
        return string_of_range_chars(s, 0);
    }
    while i <= s.len() && occurs_at_exec(s, &p, i)
        invariant
            i <= s.len(),
            p@ == pat@,
            p@.len() > 0,
            strip_all_prefixes(s@, pat@) == strip_all_prefixes(s@.skip(i as int), pat@),
        decreases s.len() - i,
    {
        assert(starts_with(s@.skip(i as int), pat@)) by {
            assert(s@.skip(i as int).subrange(0, p@.len() as int) =~= s@.subrange(i as int, i + p@.len()));
        }
        assert(s@.skip(i as int).skip(p@.len() as int) =~= s@.skip(i + p@.len()));
        i = i + p.len();
    }
    assert(!starts_with(s@.skip(i as int), pat@)) by {
        if starts_with(s@.skip(i as int), pat@) {
            assert(s@.skip(i as int).subrange(0, p@.len() as int) =~= s@.subrange(i as int, i + p@.len()));
        }
    }
    string_of_range_chars(s, i)
}

/// The characters of `s` from index `from` on.
pub fn string_of_range_chars(s: &Vec<char>, from: usize) -> (r: Vec<char>)
    requires
        from <= s.len(),
    ensures
        r@ == s@.skip(from as int),
{
    let mut r: Vec<char> = Vec::new();
    let mut i = from;
    while i < s.len()
        invariant
            from <= i <= s.len(),
            r@ == s@.subrange(from as int, i as int),
        decreases s.len() - i,
    {
        r.push(s[i]);
        assert(s@.subrange(from as int, i + 1) =~= s@.subrange(from as int, i as int).push(s@[i as int]));
        i = i + 1;
    }
    assert(s@.subrange(from as int, s@.len() as int) =~= s@.skip(from as int));
    r
}

/// The upper-case form of `s`, as `str::to_uppercase` makes it.
pub uninterp spec fn uppercased(s: Seq<char>) -> Seq<char>;

/// The upper-case form of `s` (`str::to_uppercase`).
/// Trusted: the result is whatever std computes, named `uppercased`.
#[verifier::external_body]
pub(crate) fn to_upper(s: &str) -> (r: String)
    ensures
        r@ == uppercased(s@),
{
    s.to_uppercase()
}

} // verus!
