//! Verified text utilities shared by the parsers and the message builders:
//! ASCII trimming and lower-casing, decimal rendering of integers, and
//! quoting of strings for diagnostics.

use vstd::prelude::*;

verus! {

/// ASCII whitespace, the only whitespace this library trims.
pub open spec fn is_space(c: char) -> bool {
    c == ' ' || c == '\t' || c == '\n' || c == '\r'
}

/// `s` with its leading whitespace removed.
pub open spec fn trim_left(s: Seq<char>) -> Seq<char>
    decreases s.len(),
{
    if s.len() > 0 && is_space(s[0]) {
        trim_left(s.drop_first())
    } else {
        s
    }
}

/// `s` with its trailing whitespace removed.
pub open spec fn trim_right(s: Seq<char>) -> Seq<char>
    decreases s.len(),
{
    if s.len() > 0 && is_space(s[s.len() - 1]) {
        trim_right(s.drop_last())
    } else {
        s
    }
}

/// `s` with leading and trailing whitespace removed.
pub open spec fn trimmed(s: Seq<char>) -> Seq<char> {
    trim_right(trim_left(s))
}

/// The lower-case counterpart of an ASCII letter; any other character is
/// left as it is.
pub open spec fn lower_char(c: char) -> char {
    if c == 'A' { 'a' }
    else if c == 'B' { 'b' }
    else if c == 'C' { 'c' }
    else if c == 'D' { 'd' }
    else if c == 'E' { 'e' }
    else if c == 'F' { 'f' }
    else if c == 'G' { 'g' }
    else if c == 'H' { 'h' }
    else if c == 'I' { 'i' }
    else if c == 'J' { 'j' }
    else if c == 'K' { 'k' }
    else if c == 'L' { 'l' }
    else if c == 'M' { 'm' }
    else if c == 'N' { 'n' }
    else if c == 'O' { 'o' }
    else if c == 'P' { 'p' }
    else if c == 'Q' { 'q' }
    else if c == 'R' { 'r' }
    else if c == 'S' { 's' }
    else if c == 'T' { 't' }
    else if c == 'U' { 'u' }
    else if c == 'V' { 'v' }
    else if c == 'W' { 'w' }
    else if c == 'X' { 'x' }
    else if c == 'Y' { 'y' }
    else if c == 'Z' { 'z' }
    else { c }
}

/// `s` lower-cased character by character.
pub open spec fn lowered(s: Seq<char>) -> Seq<char> {
    s.map_values(|c: char| lower_char(c))
}

/// `s` trimmed, then lower-cased: the normal form in which keywords are
/// compared.
pub open spec fn norm(s: Seq<char>) -> Seq<char> {
    lowered(trimmed(s))
}

fn space(c: char) -> (b: bool)
    ensures
        b == is_space(c),
{
    c == ' ' || c == '\t' || c == '\n' || c == '\r'
}

fn to_lower(c: char) -> (r: char)
    ensures
        r == lower_char(c),
{
    if c == 'A' { 'a' }
    else if c == 'B' { 'b' }
    else if c == 'C' { 'c' }
    else if c == 'D' { 'd' }
    else if c == 'E' { 'e' }
    else if c == 'F' { 'f' }
    else if c == 'G' { 'g' }
    else if c == 'H' { 'h' }
    else if c == 'I' { 'i' }
    else if c == 'J' { 'j' }
    else if c == 'K' { 'k' }
    else if c == 'L' { 'l' }
    else if c == 'M' { 'm' }
    else if c == 'N' { 'n' }
    else if c == 'O' { 'o' }
    else if c == 'P' { 'p' }
    else if c == 'Q' { 'q' }
    else if c == 'R' { 'r' }
    else if c == 'S' { 's' }
    else if c == 'T' { 't' }
    else if c == 'U' { 'u' }
    else if c == 'V' { 'v' }
    else if c == 'W' { 'w' }
    else if c == 'X' { 'x' }
    else if c == 'Y' { 'y' }
    else if c == 'Z' { 'z' }
    else { c }
}

/// The characters of `s`, as a vector.
pub fn chars_of(s: &str) -> (v: Vec<char>)
    ensures
        v@ == s@,
{
    let n = s.unicode_len();
    let mut v: Vec<char> = Vec::new();
    let mut i: usize = 0;
    while i < n
        invariant
            n == s@.len(),
            i <= n,
            v@ == s@.subrange(0, i as int),
        decreases n - i,
    {
        v.push(s.get_char(i));
        proof {
            assert(v@ =~= s@.subrange(0, i + 1));
        }
        i += 1;
    }
    proof {
        assert(v@ =~= s@);
    }
    v
}

proof fn lemma_trim_left_at(s: Seq<char>, a: int)
    requires
        0 <= a <= s.len(),
        forall|i: int| 0 <= i < a ==> is_space(s[i]),
        a < s.len() ==> !is_space(s[a]),
    ensures
        trim_left(s) == s.subrange(a, s.len() as int),
    decreases a,
{
    if a == 0 {
        assert(s.subrange(0, s.len() as int) =~= s);
    } else {
        assert(is_space(s[0]));
        lemma_trim_left_at(s.drop_first(), a - 1);
        assert(s.drop_first().subrange(a - 1, s.drop_first().len() as int) =~= s.subrange(
            a,
            s.len() as int,
        ));
    }
}

proof fn lemma_trim_right_at(s: Seq<char>, k: int)
    requires
        0 <= k <= s.len(),
        forall|i: int| k <= i < s.len() ==> is_space(s[i]),
        k > 0 ==> !is_space(s[k - 1]),
    ensures
        trim_right(s) == s.subrange(0, k),
    decreases s.len(),
{
    if k == s.len() {
        assert(s.subrange(0, k) =~= s);
    } else {
        assert(is_space(s[s.len() - 1]));
        lemma_trim_right_at(s.drop_last(), k);
        assert(s.drop_last().subrange(0, k) =~= s.subrange(0, k));
    }
}

/// `v` with leading and trailing ASCII whitespace removed.
pub fn trim_chars(v: &Vec<char>) -> (r: Vec<char>)
    ensures
        r@ == trimmed(v@),
{
    let n = v.len();
    let mut a: usize = 0;
    while a < n && space(v[a])
        invariant
            n == v@.len(),
            a <= n,
            forall|i: int| 0 <= i < a ==> is_space(v@[i]),
        decreases n - a,
    {
        a += 1;
    }
    if a == n {
        proof {
            lemma_trim_left_at(v@, n as int);
            assert(v@.subrange(n as int, n as int) =~= Seq::<char>::empty());
            lemma_trim_right_at(Seq::<char>::empty(), 0);
            assert(Seq::<char>::empty().subrange(0, 0) =~= Seq::<char>::empty());
        }
        let r: Vec<char> = Vec::new();
        return r;
    }
    let mut b: usize = n;
    while b > a + 1 && space(v[b - 1])
        invariant
            n == v@.len(),
            a < n,
            a + 1 <= b <= n,
            forall|i: int| b <= i < n ==> is_space(v@[i]),
        decreases b,
    {
        b -= 1;
    }
    // If the loop stopped at b == a + 1 but v[a] itself were a space, it
    // could not be: a is the first non-space index.
    let mut r: Vec<char> = Vec::new();
    let mut i: usize = a;
    while i < b
        invariant
            n == v@.len(),
            a <= i <= b <= n,
            r@ == v@.subrange(a as int, i as int),
        decreases b - i,
    {
        r.push(v[i]);
        proof {
            assert(r@ =~= v@.subrange(a as int, i + 1));
        }
        i += 1;
    }
    proof {
        lemma_trim_left_at(v@, a as int);
        let t = v@.subrange(a as int, n as int);
        // trailing spaces of t start at index b - a
        assert forall|i: int| b - a <= i < t.len() implies is_space(t[i]) by {
            assert(t[i] == v@[a + i]);
        }
        assert(t[b - a - 1] == v@[b - 1]);
        if b > a {
            if b == a + 1 {
                assert(!is_space(t[b - a - 1]));
            } else {
                assert(!is_space(v@[b - 1]));
            }
        }
        lemma_trim_right_at(t, b - a);
        assert(t.subrange(0, b - a) =~= v@.subrange(a as int, b as int));
    }
    r
}

/// `v` lower-cased character by character.
pub fn lower_chars(v: &Vec<char>) -> (r: Vec<char>)
    ensures
        r@ == lowered(v@),
{
    let n = v.len();
    let mut r: Vec<char> = Vec::new();
    let mut i: usize = 0;
    while i < n
        invariant
            n == v@.len(),
            i <= n,
            r@ == v@.subrange(0, i as int).map_values(|c: char| lower_char(c)),
        decreases n - i,
    {
        r.push(to_lower(v[i]));
        proof {
            assert(r@ =~= v@.subrange(0, i + 1).map_values(|c: char| lower_char(c)));
        }
        i += 1;
    }
    proof {
        assert(v@.subrange(0, n as int) =~= v@);
    }
    r
}

/// The trimmed, lower-cased characters of `s`.
pub fn normalize(s: &str) -> (r: Vec<char>)
    ensures
        r@ == norm(s@),
{
    let cs = chars_of(s);
    let t = trim_chars(&cs);
    lower_chars(&t)
}

/// Whether the characters of `v` spell exactly `s`.
pub fn chars_eq_str(v: &Vec<char>, s: &str) -> (b: bool)
    ensures
        b == (v@ == s@),
{
    let n = s.unicode_len();
    if v.len() != n {
        return false;
    }
    let mut i: usize = 0;
    while i < n
        invariant
            n == s@.len(),
            v@.len() == n,
            i <= n,
            forall|j: int| 0 <= j < i ==> v@[j] == s@[j],
        decreases n - i,
    {
        if v[i] != s.get_char(i) {
            return false;
        }
        i += 1;
    }
    proof {
        assert(v@ =~= s@);
    }
    true
}

/// Whether the characters of `a` spell exactly `b`.
pub fn str_eq(a: &str, b: &str) -> (r: bool)
    ensures
        r == (a@ == b@),
{
    let sa = a.to_owned();
    let sb = b.to_owned();
    sa == sb
}

/// The bounds of `s` without its leading and trailing whitespace:
/// `s[r.0..r.1]` is `trimmed(s)`.
pub fn trim_bounds(s: &str) -> (r: (usize, usize))
    ensures
        r.0 <= r.1 <= s@.len(),
        s@.subrange(r.0 as int, r.1 as int) == trimmed(s@),
{
    let n = s.unicode_len();
    let mut a: usize = 0;
    while a < n && space(s.get_char(a))
        invariant
            n == s@.len(),
            a <= n,
            forall|i: int| 0 <= i < a ==> is_space(s@[i]),
        decreases n - a,
    {
        a += 1;
    }
    if a == n {
        proof {
            lemma_trim_left_at(s@, n as int);
            assert(s@.subrange(n as int, n as int) =~= Seq::<char>::empty());
            lemma_trim_right_at(Seq::<char>::empty(), 0);
            assert(Seq::<char>::empty().subrange(0, 0) =~= Seq::<char>::empty());
        }
        return (n, n);
    }
    let mut b: usize = n;
    while b > a + 1 && space(s.get_char(b - 1))
        invariant
            n == s@.len(),
            a < n,
            a + 1 <= b <= n,
            forall|i: int| b <= i < n ==> is_space(s@[i]),
        decreases b,
    {
        b -= 1;
    }
    proof {
        lemma_trim_left_at(s@, a as int);
        let t = s@.subrange(a as int, n as int);
        assert forall|i: int| b - a <= i < t.len() implies is_space(t[i]) by {
            assert(t[i] == s@[a + i]);
        }
        assert(t[b - a - 1] == s@[b - 1]);
        if b == a + 1 {
            assert(!is_space(t[b - a - 1]));
        } else {
            assert(!is_space(s@[b - 1]));
        }
        lemma_trim_right_at(t, b - a);
        assert(t.subrange(0, b - a) =~= s@.subrange(a as int, b as int));
    }
    (a, b)
}

/// The index of the first `c` in `s`; `s.len()` when there is none.
pub open spec fn first_at(s: Seq<char>, c: char) -> int
    decreases s.len(),
{
    if s.len() == 0 {
        0
    } else if s[0] == c {
        0
    } else {
        1 + first_at(s.drop_first(), c)
    }
}

/// Characterizes `first_at` by its defining properties.
pub proof fn lemma_first_at_is(s: Seq<char>, c: char, k: int)
    requires
        0 <= k <= s.len(),
        forall|j: int| 0 <= j < k ==> s[j] != c,
        k < s.len() ==> s[k] == c,
    ensures
        first_at(s, c) == k,
    decreases k,
{
    if s.len() == 0 {
    } else if k == 0 {
    } else {
        assert(s[0] != c);
        lemma_first_at_is(s.drop_first(), c, k - 1);
    }
}

/// `first_at` stays within `s`.
pub proof fn lemma_first_at_bounds(s: Seq<char>, c: char)
    ensures
        0 <= first_at(s, c) <= s.len(),
        first_at(s, c) < s.len() ==> s[first_at(s, c)] == c,
        forall|j: int| 0 <= j < first_at(s, c) ==> s[j] != c,
    decreases s.len(),
{
    if s.len() > 0 && s[0] != c {
        lemma_first_at_bounds(s.drop_first(), c);
        assert forall|j: int| 0 <= j < first_at(s, c) implies s[j] != c by {
            if j > 0 {
                assert(s.drop_first()[j - 1] != c);
            }
        }
    }
}

/// `s` split on `c`: the segments between the occurrences of `c`, in
/// order, separators dropped. An input without `c` is one segment; each
/// separator ends a segment, so adjacent separators give empty segments.
pub open spec fn split_on(s: Seq<char>, c: char) -> Seq<Seq<char>>
    decreases s.len(),
{
    let i = first_at(s, c);
    if !(0 <= i < s.len()) {
        seq![s]
    } else {
        seq![s.subrange(0, i)] + split_on(s.subrange(i + 1, s.len() as int), c)
    }
}

/// How many times `c` occurs in `s`.
pub open spec fn count_of(s: Seq<char>, c: char) -> nat
    decreases s.len(),
{
    if s.len() == 0 {
        0
    } else {
        (count_of(s.drop_last(), c) + if s.last() == c { 1int } else { 0int }) as nat
    }
}

/// How often `c` occurs in `s`, and where it occurs first (`s`'s length
/// when it does not).
pub fn count_first(s: &str, c: char) -> (r: (usize, usize))
    ensures
        r.0 as nat == count_of(s@, c),
        r.1 as int == first_at(s@, c),
        r.0 > 0 ==> r.1 < s@.len(),
{
    let n = s.unicode_len();
    let mut cnt: usize = 0;
    let mut k: usize = n;
    let mut i: usize = 0;
    while i < n
        invariant
            n == s@.len(),
            i <= n,
            cnt <= i,
            cnt as nat == count_of(s@.subrange(0, i as int), c),
            cnt > 0 ==> (k < i && s@[k as int] == c && forall|j: int| 0 <= j < k ==> s@[j] != c),
            cnt == 0 ==> (k == n && forall|j: int| 0 <= j < i ==> s@[j] != c),
        decreases n - i,
    {
        proof {
            let pre = s@.subrange(0, i as int);
            let ext = s@.subrange(0, i + 1);
            assert(ext.drop_last() =~= pre);
            assert(ext.last() == s@[i as int]);
        }
        if s.get_char(i) == c {
            if cnt == 0 {
                k = i;
            }
            cnt += 1;
        }
        i += 1;
    }
    proof {
        assert(s@.subrange(0, n as int) =~= s@);
        if cnt > 0 {
            lemma_first_at_is(s@, c, k as int);
        } else {
            lemma_first_at_is(s@, c, n as int);
        }
    }
    (cnt, k)
}

/// The decimal digit character for `d`, which must be between 0 and 9.
pub open spec fn digit_char(d: int) -> char {
    if d == 0 { '0' }
    else if d == 1 { '1' }
    else if d == 2 { '2' }
    else if d == 3 { '3' }
    else if d == 4 { '4' }
    else if d == 5 { '5' }
    else if d == 6 { '6' }
    else if d == 7 { '7' }
    else if d == 8 { '8' }
    else { '9' }
}

/// The decimal rendering of `n`, most significant digit first, with no
/// leading zeros (a single `0` for zero itself).
pub open spec fn dec_digits(n: nat) -> Seq<char>
    decreases n,
{
    if n < 10 {
        seq![digit_char(n as int)]
    } else {
        dec_digits(n / 10) + seq![digit_char((n % 10) as int)]
    }
}

/// The decimal rendering of a possibly negative integer.
pub open spec fn dec_int(n: int) -> Seq<char> {
    if n >= 0 {
        dec_digits(n as nat)
    } else {
        seq!['-'] + dec_digits((-n) as nat)
    }
}

fn append_digit(out: &mut String, d: u64)
    requires
        d < 10,
    ensures
        final(out)@ == old(out)@ + seq![digit_char(d as int)],
{
    if d == 0 {
        out.append("0");
        proof { reveal_strlit("0"); assert("0"@ =~= seq![digit_char(0)]); }
    } else if d == 1 {
        out.append("1");
        proof { reveal_strlit("1"); assert("1"@ =~= seq![digit_char(1)]); }
    } else if d == 2 {
        out.append("2");
        proof { reveal_strlit("2"); assert("2"@ =~= seq![digit_char(2)]); }
    } else if d == 3 {
        out.append("3");
        proof { reveal_strlit("3"); assert("3"@ =~= seq![digit_char(3)]); }
    } else if d == 4 {
        out.append("4");
        proof { reveal_strlit("4"); assert("4"@ =~= seq![digit_char(4)]); }
    } else if d == 5 {
        out.append("5");
        proof { reveal_strlit("5"); assert("5"@ =~= seq![digit_char(5)]); }
    } else if d == 6 {
        out.append("6");
        proof { reveal_strlit("6"); assert("6"@ =~= seq![digit_char(6)]); }
    } else if d == 7 {
        out.append("7");
        proof { reveal_strlit("7"); assert("7"@ =~= seq![digit_char(7)]); }
    } else if d == 8 {
        out.append("8");
        proof { reveal_strlit("8"); assert("8"@ =~= seq![digit_char(8)]); }
    } else {
        out.append("9");
        proof { reveal_strlit("9"); assert("9"@ =~= seq![digit_char(9)]); }
    }
}

/// Appends the decimal rendering of `n` to `out`.
pub fn push_u64_dec(out: &mut String, n: u64)
    ensures
        final(out)@ == old(out)@ + dec_digits(n as nat),
    decreases n,
{
    if n >= 10 {
        push_u64_dec(out, n / 10);
        append_digit(out, n % 10);
        proof {
            assert(old(out)@ + dec_digits((n / 10) as nat) + seq![
                digit_char((n % 10) as int),
            ] =~= old(out)@ + dec_digits(n as nat));
        }
    } else {
        append_digit(out, n);
    }
}

/// The decimal rendering of `n` as a fresh string.
pub fn u64_string(n: u64) -> (r: String)
    ensures
        r@ == dec_digits(n as nat),
{
    let mut out = String::new();
    push_u64_dec(&mut out, n);
    proof {
        assert(Seq::<char>::empty() + dec_digits(n as nat) =~= dec_digits(n as nat));
    }
    out
}

/// The decimal rendering of `n` as a fresh string.
pub fn usize_string(n: usize) -> (r: String)
    ensures
        r@ == dec_digits(n as nat),
{
    u64_string(n as u64)
}

/// The decimal rendering of `n`, with a leading minus sign if negative.
pub fn i64_string(n: i64) -> (r: String)
    ensures
        r@ == dec_int(n as int),
{
    if n >= 0 {
        u64_string(n as u64)
    } else {
        let mut out = String::from_str("-");
        let m: u64 = ((-(n + 1)) as u64) + 1;
        proof {
            assert(m == -(n as int));
        }
        push_u64_dec(&mut out, m);
        proof {
            reveal_strlit("-");
            assert("-"@ + dec_digits(m as nat) =~= dec_int(n as int));
        }
        out
    }
}

/// One character escaped as in the library's quoted diagnostics: a quote
/// or a backslash gains a leading backslash, anything else stands as is.
pub open spec fn escape_char(c: char) -> Seq<char> {
    if c == '"' || c == '\\' {
        seq!['\\', c]
    } else {
        seq![c]
    }
}

/// `s` escaped character by character.
pub open spec fn escaped(s: Seq<char>) -> Seq<char>
    decreases s.len(),
{
    if s.len() == 0 {
        Seq::empty()
    } else {
        escape_char(s[0]) + escaped(s.drop_first())
    }
}

/// `s` escaped and wrapped in double quotes, as the library renders an
/// offending input inside an error message.
pub open spec fn quoted(s: Seq<char>) -> Seq<char> {
    seq!['"'] + escaped(s) + seq!['"']
}

proof fn lemma_escaped_append(a: Seq<char>, b: Seq<char>)
    ensures
        escaped(a + b) == escaped(a) + escaped(b),
    decreases a.len(),
{
    if a.len() == 0 {
        assert(a + b =~= b);
        assert(escaped(a) + escaped(b) =~= escaped(b));
    } else {
        assert((a + b).drop_first() =~= a.drop_first() + b);
        lemma_escaped_append(a.drop_first(), b);
        assert(escape_char(a[0]) + (escaped(a.drop_first()) + escaped(b)) =~= (escape_char(a[0])
            + escaped(a.drop_first())) + escaped(b));
    }
}

proof fn lemma_escaped_one(c: char)
    ensures
        escaped(seq![c]) == escape_char(c),
{
    assert(seq![c].drop_first() =~= Seq::<char>::empty());
    assert(escaped(Seq::<char>::empty()) == Seq::<char>::empty());
    assert(seq![c][0] == c);
    assert(escaped(seq![c]) == escape_char(c) + escaped(Seq::<char>::empty()));
    assert(escape_char(c) + Seq::<char>::empty() =~= escape_char(c));
}

/// `s` escaped and wrapped in double quotes.
pub fn quote_str(s: &str) -> (r: String)
    ensures
        r@ == quoted(s@),
{
    let n = s.unicode_len();
    let mut out = String::from_str("\"");
    proof {
        reveal_strlit("\"");
        assert(out@ =~= seq!['"'] + escaped(s@.subrange(0, 0)));
    }
    let mut i: usize = 0;
    while i < n
        invariant
            n == s@.len(),
            i <= n,
            out@ == seq!['"'] + escaped(s@.subrange(0, i as int)),
        decreases n - i,
    {
        let c = s.get_char(i);
        if c == '"' {
            out.append("\\\"");
            proof { reveal_strlit("\\\""); }
        } else if c == '\\' {
            out.append("\\\\");
            proof { reveal_strlit("\\\\"); }
        } else {
            let piece = s.substring_char(i, i + 1);
            out.append(piece);
        }
        proof {
            let pre = s@.subrange(0, i as int);
            assert(s@.subrange(0, i + 1) =~= pre + seq![s@[i as int]]);
            lemma_escaped_append(pre, seq![s@[i as int]]);
            lemma_escaped_one(s@[i as int]);
            if c == '"' {
                assert("\\\""@ =~= escape_char(c));
            } else if c == '\\' {
                assert("\\\\"@ =~= escape_char(c));
            } else {
                assert(s@.subrange(i as int, i + 1) =~= seq![s@[i as int]]);
                assert(seq![s@[i as int]] =~= escape_char(c));
            }
            assert(out@ =~= seq!['"'] + escaped(s@.subrange(0, i + 1)));
        }
        i += 1;
    }
    out.append("\"");
    proof {
        reveal_strlit("\"");
        assert(s@.subrange(0, n as int) =~= s@);
        assert(out@ =~= quoted(s@));
    }
    out
}

} // verus!
