//! Character-level text utilities: conversions between `&str`, `Vec<char>`
//! and `String`, whitespace handling, and decimal parsing and formatting.
//! All logic works over `Seq<char>` views so that the formatting and parsing
//! rules of the rest of the crate can be stated exactly.

use vstd::prelude::*;

verus! {

/// The characters treated as whitespace when trimming and splitting fields:
/// the ASCII whitespace set recognized by Rust's `char::is_whitespace`.
pub open spec fn is_ws(c: char) -> bool {
    c == ' ' || c == '\t' || c == '\n' || c == '\r' || c == '\u{b}' || c == '\u{c}'
}

/// Executable test matching `is_ws`.
pub fn is_ws_char(c: char) -> (r: bool)
    ensures
        r == is_ws(c),
{
    c == ' ' || c == '\t' || c == '\n' || c == '\r' || c == '\u{b}' || c == '\u{c}'
}

/// Collects the characters of a string slice into a vector with the same view.
pub fn chars_of(s: &str) -> (r: Vec<char>)
    ensures
        r@ == s@,
{
    let n = s.unicode_len();
    let mut v: Vec<char> = Vec::new();
    let mut i: usize = 0;
    while i < n
        invariant
            i <= n,
            n == s@.len(),
            v@ == s@.subrange(0, i as int),
        decreases n - i,
    {
        v.push(s.get_char(i));
        proof {
            assert(v@ =~= s@.subrange(0, i + 1 as int));
        }
        i += 1;
    }
    proof {
        assert(v@ =~= s@);
    }
    v
}

/// Appends every character of `s` to `out`.
pub fn push_str_chars(out: &mut Vec<char>, s: &str)
    ensures
        final(out)@ == old(out)@ + s@,
{
    let n = s.unicode_len();
    let mut i: usize = 0;
    while i < n
        invariant
            i <= n,
            n == s@.len(),
            out@ == old(out)@ + s@.subrange(0, i as int),
        decreases n - i,
    {
        out.push(s.get_char(i));
        proof {
            assert(out@ =~= old(out)@ + s@.subrange(0, i + 1 as int));
        }
        i += 1;
    }
    proof {
        assert(out@ =~= old(out)@ + s@);
    }
}

/// Relies on `String: FromIterator<char>`: collecting an iterator of
/// characters yields a string containing exactly those characters in order.
#[verifier::external_body]
pub fn chars_to_string(v: &Vec<char>) -> (r: String)
    ensures
        r@ == v@,
{
    v.iter().collect()
}

/// Character-by-character equality of two string slices.
pub fn str_eq(a: &str, b: &str) -> (r: bool)
    ensures
        r == (a@ == b@),
{
    let na = a.unicode_len();
    let nb = b.unicode_len();
    if na != nb {
        proof {
            assert(a@ != b@);
        }
        return false;
    }
    let mut i: usize = 0;
    while i < na
        invariant
            i <= na,
            na == a@.len(),
            na == b@.len(),
            forall|j: int| 0 <= j < i ==> a@[j] == b@[j],
        decreases na - i,
    {
        if a.get_char(i) != b.get_char(i) {
            proof {
                assert(a@[i as int] != b@[i as int]);
            }
            return false;
        }
        i += 1;
    }
    proof {
        assert(a@ =~= b@);
    }
    true
}

/// `s` begins with the prefix `p`.
pub open spec fn spec_starts_with(s: Seq<char>, p: Seq<char>) -> bool {
    s.len() >= p.len() && s.subrange(0, p.len() as int) == p
}

/// Executable prefix test matching `spec_starts_with`.
pub fn starts_with_chars(v: &Vec<char>, p: &Vec<char>) -> (r: bool)
    ensures
        r == spec_starts_with(v@, p@),
{
    let np = p.len();
    if np > v.len() {
        return false;
    }
    let mut i: usize = 0;
    while i < np
        invariant
            i <= np,
            np == p@.len(),
            np <= v@.len(),
            forall|j: int| 0 <= j < i ==> v@[j] == p@[j],
        decreases np - i,
    {
        if v[i] != p[i] {
            proof {
                assert(v@.subrange(0, p@.len() as int)[i as int] == v@[i as int]);
            }
            return false;
        }
        i += 1;
    }
    proof {
        assert(v@.subrange(0, p@.len() as int) =~= p@);
    }
    true
}

/// Copies the characters of `v` between positions `a` and `b`.
pub fn sub_chars(v: &Vec<char>, a: usize, b: usize) -> (r: Vec<char>)
    requires
        a <= b <= v@.len(),
    ensures
        r@ == v@.subrange(a as int, b as int),
{
    let mut out: Vec<char> = Vec::new();
    let mut i: usize = a;
    while i < b
        invariant
            a <= i <= b,
            b <= v@.len(),
            out@ == v@.subrange(a as int, i as int),
        decreases b - i,
    {
        out.push(v[i]);
        proof {
            assert(out@ =~= v@.subrange(a as int, i + 1 as int));
        }
        i += 1;
    }
    out
}

/// `s` without its leading whitespace.
pub open spec fn trim_front(s: Seq<char>) -> Seq<char>
    decreases s.len(),
{
    if s.len() > 0 && is_ws(s[0]) {
        trim_front(s.drop_first())
    } else {
        s
    }
}

/// `s` without its trailing whitespace.
pub open spec fn trim_back(s: Seq<char>) -> Seq<char>
    decreases s.len(),
{
    if s.len() > 0 && is_ws(s.last()) {
        trim_back(s.drop_last())
    } else {
        s
    }
}

/// `s` without leading and trailing whitespace.
pub open spec fn spec_trim(s: Seq<char>) -> Seq<char> {
    trim_back(trim_front(s))
}

proof fn lemma_trim_front_is(s: Seq<char>, a: int)
    requires
        0 <= a <= s.len(),
        forall|j: int| 0 <= j < a ==> is_ws(s[j]),
        a == s.len() || !is_ws(s[a]),
    ensures
        trim_front(s) == s.skip(a),
    decreases a,
{
    if a == 0 {
        assert(s.skip(0) =~= s);
    } else {
        assert(is_ws(s[0]));
        lemma_trim_front_is(s.drop_first(), a - 1);
        assert(s.drop_first().skip(a - 1) =~= s.skip(a));
    }
}

proof fn lemma_trim_back_is(s: Seq<char>, b: int)
    requires
        0 <= b <= s.len(),
        forall|j: int| b <= j < s.len() ==> is_ws(s[j]),
        b == 0 || !is_ws(s[b - 1]),
    ensures
        trim_back(s) == s.take(b),
    decreases s.len() - b,
{
    if b == s.len() {
        assert(s.take(b) =~= s);
    } else {
        assert(is_ws(s.last()));
        lemma_trim_back_is(s.drop_last(), b);
        assert(s.drop_last().take(b) =~= s.take(b));
    }
}

/// Removes leading and trailing whitespace.
pub fn trim_chars(v: &Vec<char>) -> (r: Vec<char>)
    ensures
        r@ == spec_trim(v@),
{
    let n = v.len();
    let mut a: usize = 0;
    while a < n && is_ws_char(v[a])
        invariant
            a <= n,
            n == v@.len(),
            forall|j: int| 0 <= j < a ==> is_ws(v@[j]),
        decreases n - a,
    {
        a += 1;
    }
    if a == n {
        proof {
            lemma_trim_front_is(v@, n as int);
            assert(v@.skip(n as int) =~= Seq::<char>::empty());
            assert(trim_back(Seq::<char>::empty()) == Seq::<char>::empty());
        }
        return Vec::new();
    }
    proof {
        lemma_trim_front_is(v@, a as int);
    }
    let mut b: usize = n;
    while b > a && is_ws_char(v[b - 1])
        invariant
            a <= b <= n,
            n == v@.len(),
            a < n,
            !is_ws(v@[a as int]),
            forall|j: int| b <= j < n ==> is_ws(v@[j]),
        decreases b,
    {
        b -= 1;
    }
    proof {
        let t = v@.skip(a as int);
        assert(b > a);
        assert(!is_ws(t[b - 1 - a]));
        assert(forall|j: int| b - a <= j < t.len() ==> is_ws(t[j]));
        lemma_trim_back_is(t, b - a);
        assert(t.take(b - a) =~= v@.subrange(a as int, b as int));
    }
    sub_chars(v, a, b)
}

/// The length of the leading run of non-whitespace characters: the position
/// of the first whitespace character, or the length of `s` if there is none.
pub open spec fn first_ws(s: Seq<char>) -> nat
    decreases s.len(),
{
    if s.len() == 0 {
        0
    } else if is_ws(s[0]) {
        0
    } else {
        1 + first_ws(s.drop_first())
    }
}

pub proof fn lemma_first_ws(s: Seq<char>)
    ensures
        first_ws(s) <= s.len(),
        forall|j: int| 0 <= j < first_ws(s) ==> !is_ws(s[j]),
        first_ws(s) < s.len() ==> is_ws(s[first_ws(s) as int]),
    decreases s.len(),
{
    if s.len() == 0 || is_ws(s[0]) {
    } else {
        lemma_first_ws(s.drop_first());
        assert forall|j: int| 0 <= j < first_ws(s) implies !is_ws(s[j]) by {
            if j > 0 {
                assert(s[j] == s.drop_first()[j - 1]);
            }
        }
        if first_ws(s) < s.len() {
            assert(s[first_ws(s) as int] == s.drop_first()[first_ws(s.drop_first()) as int]);
        }
    }
}

proof fn lemma_first_ws_is(s: Seq<char>, k: int)
    requires
        0 <= k <= s.len(),
        forall|j: int| 0 <= j < k ==> !is_ws(s[j]),
        k == s.len() || is_ws(s[k]),
    ensures
        first_ws(s) == k,
    decreases k,
{
    if k == 0 {
    } else {
        assert(!is_ws(s[0]));
        assert forall|j: int| 0 <= j < k - 1 implies !is_ws(s.drop_first()[j]) by {
            assert(s.drop_first()[j] == s[j + 1]);
        }
        if k < s.len() {
            assert(s.drop_first()[k - 1] == s[k]);
        }
        lemma_first_ws_is(s.drop_first(), k - 1);
    }
}

/// The whitespace-separated fields of `s`, in order, each non-empty.
pub open spec fn spec_fields(s: Seq<char>) -> Seq<Seq<char>>
    decreases s.len(),
    via spec_fields_dec
{
    if s.len() == 0 {
        seq![]
    } else if is_ws(s[0]) {
        spec_fields(s.drop_first())
    } else {
        seq![s.take(first_ws(s) as int)] + spec_fields(s.skip(first_ws(s) as int))
    }
}

#[via_fn]
proof fn spec_fields_dec(s: Seq<char>) {
    lemma_first_ws(s);
}

/// The views of a vector of character vectors.
pub open spec fn views_of(s: Seq<Vec<char>>) -> Seq<Seq<char>> {
    s.map_values(|v: Vec<char>| v@)
}

/// Splits `v` at whitespace into its non-empty fields.
pub fn split_ws(v: &Vec<char>) -> (r: Vec<Vec<char>>)
    ensures
        views_of(r@) == spec_fields(v@),
{
    let n = v.len();
    let mut r: Vec<Vec<char>> = Vec::new();
    let mut i: usize = 0;
    proof {
        assert(views_of(r@) + spec_fields(v@.skip(0)) =~= spec_fields(v@)) by {
            assert(v@.skip(0) =~= v@);
            assert(views_of(r@) =~= Seq::<Seq<char>>::empty());
        }
    }
    while i < n
        invariant
            i <= n,
            n == v@.len(),
            views_of(r@) + spec_fields(v@.skip(i as int)) == spec_fields(v@),
        decreases n - i,
    {
        if is_ws_char(v[i]) {
            proof {
                assert(v@.skip(i as int).drop_first() =~= v@.skip(i + 1 as int));
                assert(views_of(r@) + spec_fields(v@.skip(i + 1 as int)) =~= spec_fields(v@));
            }
            i += 1;
        } else {
            let start = i;
            let mut j: usize = i + 1;
            while j < n && !is_ws_char(v[j])
                invariant
                    start < j <= n,
                    n == v@.len(),
                    forall|k: int| start <= k < j ==> !is_ws(v@[k]),
                decreases n - j,
            {
                j += 1;
            }
            let field = sub_chars(v, start, j);
            proof {
                let t = v@.skip(start as int);
                assert forall|k: int| 0 <= k < j - start implies !is_ws(t[k]) by {
                    assert(t[k] == v@[k + start]);
                }
                if j < n {
                    assert(t[j - start] == v@[j as int]);
                }
                lemma_first_ws_is(t, j - start);
                assert(t.take((j - start) as int) =~= v@.subrange(start as int, j as int));
                assert(t.skip((j - start) as int) =~= v@.skip(j as int));
                assert(spec_fields(t) == seq![field@] + spec_fields(v@.skip(j as int)));
            }
            r.push(field);
            proof {
                assert(views_of(r@) =~= views_of(r@.drop_last()) + seq![r@[r@.len() - 1]@]);
                assert(views_of(r@) + spec_fields(v@.skip(j as int)) =~= spec_fields(v@));
            }
            i = j;
        }
    }
    proof {
        assert(spec_fields(v@.skip(n as int)) == Seq::<Seq<char>>::empty()) by {
            assert(v@.skip(n as int) =~= Seq::<char>::empty());
        }
        assert(views_of(r@) =~= spec_fields(v@));
    }
    r
}

/// The position of the first newline in `s`, or its length if there is none.
pub open spec fn first_nl(s: Seq<char>) -> nat
    decreases s.len(),
{
    if s.len() == 0 {
        0
    } else if s[0] == '\n' {
        0
    } else {
        1 + first_nl(s.drop_first())
    }
}

pub proof fn lemma_first_nl(s: Seq<char>)
    ensures
        first_nl(s) <= s.len(),
        forall|j: int| 0 <= j < first_nl(s) ==> s[j] != '\n',
        first_nl(s) < s.len() ==> s[first_nl(s) as int] == '\n',
    decreases s.len(),
{
    if s.len() == 0 || s[0] == '\n' {
    } else {
        lemma_first_nl(s.drop_first());
        assert forall|j: int| 0 <= j < first_nl(s) implies s[j] != '\n' by {
            if j > 0 {
                assert(s[j] == s.drop_first()[j - 1]);
            }
        }
        if first_nl(s) < s.len() {
            assert(s[first_nl(s) as int] == s.drop_first()[first_nl(s.drop_first()) as int]);
        }
    }
}

proof fn lemma_first_nl_is(s: Seq<char>, k: int)
    requires
        0 <= k <= s.len(),
        forall|j: int| 0 <= j < k ==> s[j] != '\n',
        k == s.len() || s[k] == '\n',
    ensures
        first_nl(s) == k,
    decreases k,
{
    if k == 0 {
    } else {
        assert(s[0] != '\n');
        assert forall|j: int| 0 <= j < k - 1 implies s.drop_first()[j] != '\n' by {
            assert(s.drop_first()[j] == s[j + 1]);
        }
        if k < s.len() {
            assert(s.drop_first()[k - 1] == s[k]);
        }
        lemma_first_nl_is(s.drop_first(), k - 1);
    }
}

/// The segments of `s` between newlines, in order. Every segment appears,
/// empty ones included, so `"a\nb\n"` has the three segments `a`, `b` and
/// the empty one after the trailing newline.
pub open spec fn spec_lines(s: Seq<char>) -> Seq<Seq<char>>
    decreases s.len(),
    via spec_lines_dec
{
    if first_nl(s) == s.len() {
        seq![s]
    } else {
        seq![s.take(first_nl(s) as int)] + spec_lines(s.skip(first_nl(s) + 1 as int))
    }
}

#[via_fn]
proof fn spec_lines_dec(s: Seq<char>) {
    lemma_first_nl(s);
}

/// Splits `v` at newlines into its segments.
pub fn split_lines(v: &Vec<char>) -> (r: Vec<Vec<char>>)
    ensures
        views_of(r@) == spec_lines(v@),
{
    let n = v.len();
    let mut r: Vec<Vec<char>> = Vec::new();
    let mut start: usize = 0;
    let mut i: usize = 0;
    proof {
        assert(views_of(r@) + spec_lines(v@.skip(0)) =~= spec_lines(v@)) by {
            assert(v@.skip(0) =~= v@);
            assert(views_of(r@) =~= Seq::<Seq<char>>::empty());
        }
    }
    while i < n
        invariant
            start <= i <= n,
            n == v@.len(),
            forall|k: int| start <= k < i ==> v@[k] != '\n',
            views_of(r@) + spec_lines(v@.skip(start as int)) == spec_lines(v@),
        decreases n - i,
    {
        if v[i] == '\n' {
            let line = sub_chars(v, start, i);
            proof {
                let t = v@.skip(start as int);
                assert forall|k: int| 0 <= k < i - start implies t[k] != '\n' by {
                    assert(t[k] == v@[k + start]);
                }
                assert(t[i - start] == v@[i as int]);
                lemma_first_nl_is(t, i - start);
                assert(t.take((i - start) as int) =~= v@.subrange(start as int, i as int));
                assert(t.skip((i - start + 1) as int) =~= v@.skip(i + 1 as int));
                assert(spec_lines(t) == seq![line@] + spec_lines(v@.skip(i + 1 as int)));
            }
            r.push(line);
            proof {
                assert(views_of(r@) =~= views_of(r@.drop_last()) + seq![r@[r@.len() - 1]@]);
                assert(views_of(r@) + spec_lines(v@.skip(i + 1 as int)) =~= spec_lines(v@));
            }
            start = i + 1;
        }
        i += 1;
    }
    let line = sub_chars(v, start, n);
    proof {
        let t = v@.skip(start as int);
        assert forall|k: int| 0 <= k < n - start implies t[k] != '\n' by {
            assert(t[k] == v@[k + start]);
        }
        lemma_first_nl_is(t, n - start);
        assert(t =~= v@.subrange(start as int, n as int));
        assert(spec_lines(t) == seq![t]);
        assert(line@ == t);
    }
    r.push(line);
    proof {
        assert(views_of(r@) =~= views_of(r@.drop_last()) + seq![r@[r@.len() - 1]@]);
        assert(views_of(r@) =~= spec_lines(v@));
    }
    r
}

/// The decimal digit character for `d` (meaningful for `0 <= d <= 9`).
pub open spec fn dec_digit_char(d: int) -> char {
    if d == 0 {
        '0'
    } else if d == 1 {
        '1'
    } else if d == 2 {
        '2'
    } else if d == 3 {
        '3'
    } else if d == 4 {
        '4'
    } else if d == 5 {
        '5'
    } else if d == 6 {
        '6'
    } else if d == 7 {
        '7'
    } else if d == 8 {
        '8'
    } else {
        '9'
    }
}

/// The decimal representation of `n`, without leading zeroes (except `n == 0`).
pub open spec fn spec_dec(n: nat) -> Seq<char>
    decreases n,
{
    if n < 10 {
        seq![dec_digit_char(n as int)]
    } else {
        spec_dec(n / 10).push(dec_digit_char((n % 10) as int))
    }
}

/// The numeric value of `c` as a decimal digit, or -1 if `c` is no digit.
pub open spec fn char_digit(c: char) -> int {
    if c == '0' {
        0
    } else if c == '1' {
        1
    } else if c == '2' {
        2
    } else if c == '3' {
        3
    } else if c == '4' {
        4
    } else if c == '5' {
        5
    } else if c == '6' {
        6
    } else if c == '7' {
        7
    } else if c == '8' {
        8
    } else if c == '9' {
        9
    } else {
        -1
    }
}

/// Every character of `s` is a decimal digit.
pub open spec fn is_digits(s: Seq<char>) -> bool {
    forall|i: int| 0 <= i < s.len() ==> char_digit(s[i]) >= 0
}

/// The value of `s` read as a decimal number (non-digits count as zero).
pub open spec fn dec_val(s: Seq<char>) -> nat
    decreases s.len(),
{
    if s.len() == 0 {
        0
    } else {
        dec_val(s.drop_last()) * 10 + (if char_digit(s.last()) >= 0 {
            char_digit(s.last()) as nat
        } else {
            0
        })
    }
}

pub fn digit_char(d: u64) -> (c: char)
    requires
        d < 10,
    ensures
        c == dec_digit_char(d as int),
{
    match d {
        0 => '0',
        1 => '1',
        2 => '2',
        3 => '3',
        4 => '4',
        5 => '5',
        6 => '6',
        7 => '7',
        8 => '8',
        _ => '9',
    }
}

pub fn digit_of_char(c: char) -> (r: Option<u8>)
    ensures
        char_digit(c) >= 0 ==> r == Some(char_digit(c) as u8),
        char_digit(c) < 0 ==> r is None,
{
    match c {
        '0' => Some(0),
        '1' => Some(1),
        '2' => Some(2),
        '3' => Some(3),
        '4' => Some(4),
        '5' => Some(5),
        '6' => Some(6),
        '7' => Some(7),
        '8' => Some(8),
        '9' => Some(9),
        _ => None,
    }
}

/// Appends the decimal representation of `n` to `out`.
pub fn push_dec_u64(out: &mut Vec<char>, n: u64)
    ensures
        final(out)@ == old(out)@ + spec_dec(n as nat),
    decreases n,
{
    if n >= 10 {
        push_dec_u64(out, n / 10);
    }
    out.push(digit_char(n % 10));
    proof {
        if n < 10 {
            assert(out@ =~= old(out)@ + spec_dec(n as nat));
        } else {
            assert(out@ =~= old(out)@ + spec_dec(n as nat));
        }
    }
}

proof fn lemma_dec_val_take_step(s: Seq<char>, j: int)
    requires
        0 <= j < s.len(),
    ensures
        dec_val(s.take(j + 1)) == dec_val(s.take(j)) * 10 + (if char_digit(s[j]) >= 0 {
            char_digit(s[j]) as nat
        } else {
            0
        }),
{
    assert(s.take(j + 1).drop_last() =~= s.take(j));
    assert(s.take(j + 1).last() == s[j]);
}

proof fn lemma_dec_val_take_le(s: Seq<char>, j: int)
    requires
        0 <= j <= s.len(),
    ensures
        dec_val(s.take(j)) <= dec_val(s),
    decreases s.len() - j,
{
    if j == s.len() {
        assert(s.take(j) =~= s);
    } else {
        lemma_dec_val_take_step(s, j);
        lemma_dec_val_take_le(s, j + 1);
    }
}

/// Parses `s` as a decimal unsigned integer: succeeds exactly when `s` is a
/// non-empty sequence of digits whose value fits in a `u64`.
pub fn parse_u64(s: &Vec<char>) -> (r: Option<u64>)
    ensures
        r is Some <==> (s@.len() > 0 && is_digits(s@) && dec_val(s@) <= u64::MAX),
        r is Some ==> r == Some(dec_val(s@) as u64),
{
    if s.len() == 0 {
        return None;
    }
    let mut acc: u64 = 0;
    let mut i: usize = 0;
    while i < s.len()
        invariant
            i <= s@.len(),
            is_digits(s@.take(i as int)),
            acc == dec_val(s@.take(i as int)),
        decreases s@.len() - i,
    {
        match digit_of_char(s[i]) {
            None => {
                proof {
                    assert(char_digit(s@[i as int]) < 0);
                }
                return None;
            },
            Some(d) => {
                proof {
                    lemma_dec_val_take_step(s@, i as int);
                }
                if acc > (u64::MAX - d as u64) / 10 {
                    proof {
                        assert(acc * 10 + d as u64 > u64::MAX);
                        assert(is_digits(s@) ==> dec_val(s@) > u64::MAX) by {
                            if is_digits(s@) {
                                lemma_dec_val_take_le(s@, i + 1 as int);
                            }
                        }
                    }
                    return None;
                }
                acc = acc * 10 + d as u64;
                proof {
                    assert(s@.take(i + 1 as int)[i as int] == s@[i as int]);
                    assert(forall|k: int| 0 <= k < i ==> s@.take(i + 1 as int)[k] == s@.take(
                        i as int,
                    )[k]);
                }
            },
        }
        i += 1;
    }
    proof {
        assert(s@.take(s@.len() as int) =~= s@);
    }
    Some(acc)
}

/// Parses `s` as a decimal number fitting in a `u32`.
pub fn parse_u32(s: &Vec<char>) -> (r: Option<u32>)
    ensures
        r is Some <==> (s@.len() > 0 && is_digits(s@) && dec_val(s@) <= u32::MAX),
        r is Some ==> r == Some(dec_val(s@) as u32),
{
    match parse_u64(s) {
        Some(v) => if v <= u32::MAX as u64 {
            Some(v as u32)
        } else {
            None
        },
        None => {
            proof {
                assert(dec_val(s@) > u32::MAX ==> dec_val(s@) > u64::MAX || !(s@.len() > 0
                    && is_digits(s@) && dec_val(s@) <= u64::MAX));
            }
            None
        },
    }
}

/// Parses `s` as a decimal number fitting in a `u8`.
pub fn parse_u8(s: &Vec<char>) -> (r: Option<u8>)
    ensures
        r is Some <==> (s@.len() > 0 && is_digits(s@) && dec_val(s@) <= u8::MAX),
        r is Some ==> r == Some(dec_val(s@) as u8),
{
    match parse_u64(s) {
        Some(v) => if v <= u8::MAX as u64 {
            Some(v as u8)
        } else {
            None
        },
        None => None,
    }
}

/// `n / d` rounded to the nearest integer, ties to the even quotient.
pub open spec fn round_half_even(n: int, d: int) -> int {
    let q = n / d;
    let r = n % d;
    if 2 * r < d {
        q
    } else if 2 * r > d {
        q + 1
    } else if q % 2 == 0 {
        q
    } else {
        q + 1
    }
}

/// `n / d` rounded to the nearest integer, ties away from zero.
pub open spec fn round_half_up(n: int, d: int) -> int {
    let q = n / d;
    let r = n % d;
    if 2 * r < d {
        q
    } else {
        q + 1
    }
}

#[verifier::nonlinear]
proof fn lemma_div_bound(n: u128, d: u128)
    requires
        1 <= d,
    ensures
        n as int / d as int <= n as int,
        n as int % d as int >= 1 ==> (n as int / d as int) < n as int,
{
}

pub fn div_round_half_even(n: u128, d: u128) -> (r: u128)
    requires
        1 <= d <= u128::MAX / 2,
    ensures
        r == round_half_even(n as int, d as int),
{
    proof {
        lemma_div_bound(n, d);
    }
    let q = n / d;
    let rem = n % d;
    if 2 * rem < d {
        q
    } else if 2 * rem > d {
        q + 1
    } else if q % 2 == 0 {
        q
    } else {
        q + 1
    }
}

pub fn div_round_half_up(n: u128, d: u128) -> (r: u128)
    requires
        1 <= d <= u128::MAX / 2,
    ensures
        r == round_half_up(n as int, d as int),
{
    proof {
        lemma_div_bound(n, d);
    }
    let q = n / d;
    let rem = n % d;
    if 2 * rem < d {
        q
    } else {
        q + 1
    }
}

/// The lowercase hexadecimal digit character for `d` (meaningful for `0 <= d <= 15`).
pub open spec fn hex_digit_char(d: int) -> char {
    if d < 10 {
        dec_digit_char(d)
    } else if d == 10 {
        'a'
    } else if d == 11 {
        'b'
    } else if d == 12 {
        'c'
    } else if d == 13 {
        'd'
    } else if d == 14 {
        'e'
    } else {
        'f'
    }
}

pub fn hex_char(d: u8) -> (c: char)
    requires
        d < 16,
    ensures
        c == hex_digit_char(d as int),
{
    if d < 10 {
        digit_char(d as u64)
    } else {
        match d {
            10 => 'a',
            11 => 'b',
            12 => 'c',
            13 => 'd',
            14 => 'e',
            _ => 'f',
        }
    }
}

/// The hexadecimal representation of `v` without leading zeroes, as Rust's
/// `{:x}` writes a `u8`: one digit below 16, two digits otherwise.
pub open spec fn spec_hex_u8(v: int) -> Seq<char> {
    if v < 16 {
        seq![hex_digit_char(v)]
    } else {
        seq![hex_digit_char(v / 16), hex_digit_char(v % 16)]
    }
}

/// Appends the unpadded lowercase hexadecimal form of `v` to `out`.
pub fn push_hex_u8(out: &mut Vec<char>, v: u8)
    ensures
        final(out)@ == old(out)@ + spec_hex_u8(v as int),
{
    if v < 16 {
        out.push(hex_char(v));
    } else {
        out.push(hex_char(v / 16));
        out.push(hex_char(v % 16));
    }
    proof {
        assert(out@ =~= old(out)@ + spec_hex_u8(v as int));
    }
}

} // verus!
