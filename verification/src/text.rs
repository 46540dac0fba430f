//! Character-level text helpers with mathematical specifications: decimal
//! rendering and parsing of unsigned integers, whitespace trimming and
//! splitting on a separator.
use vstd::prelude::*;

verus! {

/// Appends one character to a string (`String::push`).
#[verifier::external_body]
pub(crate) fn push_char(s: &mut String, c: char)
    ensures
        final(s)@ == old(s)@.push(c),
{
    s.push(c);
}

/// Appends a string slice to a string.
pub fn push_str(s: &mut String, t: &str)
    ensures
        final(s)@ == old(s)@ + t@,
{
    let ghost start = s@;
    for c in it: t.chars()
        invariant
            s@ == start + it.seq().take(it.index() as int),
    {
        push_char(s, c);
        proof {
            assert(it.seq().take(it.index() + 1) =~= it.seq().take(it.index() as int).push(c));
        }
    }
}

/// The characters of a string slice, in order.
pub fn chars_of(s: &str) -> (v: Vec<char>)
    ensures
        v@ == s@,
{
    let mut v: Vec<char> = Vec::new();
    for c in it: s.chars()
        invariant
            v@ == it.seq().take(it.index() as int),
    {
        v.push(c);
    }
    v
}

/// Builds a string from the characters `v[from..to]`.
pub fn string_from_chars(v: &Vec<char>, from: usize, to: usize) -> (s: String)
    requires
        from <= to <= v.len(),
    ensures
        s@ == v@.subrange(from as int, to as int),
{
    let mut s = String::new();
    let mut i = from;
    while i < to
        invariant
            from <= i <= to <= v.len(),
            s@ == v@.subrange(from as int, i as int),
        decreases to - i,
    {
        push_char(&mut s, v[i]);
        proof {
            assert(v@.subrange(from as int, i + 1) =~= v@.subrange(from as int, i as int).push(v@[i as int]));
        }
        i = i + 1;
    }
    s
}

// ---------------------------------------------------------------------------
// Decimal rendering
// ---------------------------------------------------------------------------

/// The ASCII digit character for `d < 10`.
pub open spec fn digit_char(d: nat) -> char {
    if d == 0 { '0' }
    else if d == 1 { '1' }
    else if d == 2 { '2' }
    else if d == 3 { '3' }
    else if d == 4 { '4' }
    else if d == 5 { '5' }
    else if d == 6 { '6' }
    else if d == 7 { '7' }
    else if d == 8 { '8' }
    else { '9' }
}

/// The value of an ASCII digit character.
pub open spec fn digit_value(c: char) -> nat {
    if c == '0' { 0 }
    else if c == '1' { 1 }
    else if c == '2' { 2 }
    else if c == '3' { 3 }
    else if c == '4' { 4 }
    else if c == '5' { 5 }
    else if c == '6' { 6 }
    else if c == '7' { 7 }
    else if c == '8' { 8 }
    else { 9 }
}

pub open spec fn is_digit(c: char) -> bool {
    c == '0' || c == '1' || c == '2' || c == '3' || c == '4' || c == '5' || c == '6' || c == '7'
        || c == '8' || c == '9'
}

/// Shortest decimal rendering of `n` (as Rust's `Display` for unsigned integers prints it).
pub open spec fn decimal(n: nat) -> Seq<char>
    decreases n,
{
    if n < 10 {
        seq![digit_char(n)]
    } else {
        decimal(n / 10).push(digit_char(n % 10))
    }
}

fn digit_to_char(d: u64) -> (c: char)
    requires
        d < 10,
    ensures
        c == digit_char(d as nat),
{
    if d == 0 { '0' }
    else if d == 1 { '1' }
    else if d == 2 { '2' }
    else if d == 3 { '3' }
    else if d == 4 { '4' }
    else if d == 5 { '5' }
    else if d == 6 { '6' }
    else if d == 7 { '7' }
    else if d == 8 { '8' }
    else { '9' }
}

/// Appends the decimal rendering of `n`.
pub fn push_decimal(s: &mut String, n: u64)
    ensures
        final(s)@ == old(s)@ + decimal(n as nat),
    decreases n,
{
    if n >= 10 {
        push_decimal(s, n / 10);
    }
    let c = digit_to_char(n % 10);
    push_char(s, c);
    proof {
        if n >= 10 {
            assert(decimal(n as nat) == decimal((n / 10) as nat).push(digit_char((n % 10) as nat)));
        }
    }
}

/// Decimal rendering of a signed number.
pub open spec fn signed_decimal(v: int) -> Seq<char> {
    if v < 0 { "-"@ + decimal((-v) as nat) } else { decimal(v as nat) }
}

/// Appends the decimal rendering of a signed number.
pub fn push_signed(s: &mut String, v: i64)
    ensures
        final(s)@ == old(s)@ + signed_decimal(v as int),
{
    if v < 0 {
        push_str(s, "-");
        let magnitude: u64 = if v == i64::MIN {
            9_223_372_036_854_775_808u64
        } else {
            (0i64 - v) as u64
        };
        push_decimal(s, magnitude);
        proof {
            assert(old(s)@ + "-"@ + decimal(magnitude as nat) =~= old(s)@ + ("-"@ + decimal(magnitude as nat)));
        }
    } else {
        push_decimal(s, v as u64);
    }
}

/// The decimal rendering of `n`.
pub fn u64_to_decimal(n: u64) -> (s: String)
    ensures
        s@ == decimal(n as nat),
{
    let mut s = String::new();
    push_decimal(&mut s, n);
    s
}

// ---------------------------------------------------------------------------
// Decimal parsing
// ---------------------------------------------------------------------------

pub open spec fn all_digits(s: Seq<char>) -> bool {
    forall|i: int| 0 <= i < s.len() ==> #[trigger] is_digit(s[i])
}

/// The value denoted by a sequence of decimal digits.
pub open spec fn digits_value(s: Seq<char>) -> nat
    decreases s.len(),
{
    if s.len() == 0 {
        0
    } else {
        digits_value(s.drop_last()) * 10 + digit_value(s.last())
    }
}

/// What `str::parse::<u64>` accepts: an optional `+`, then at least one ASCII
/// digit, denoting a value that fits in 64 bits.
pub open spec fn parse_u64_spec(s: Seq<char>) -> Option<u64> {
    let body = if s.len() > 0 && s[0] == '+' { s.drop_first() } else { s };
    if body.len() > 0 && all_digits(body) && digits_value(body) <= u64::MAX {
        Some(digits_value(body) as u64)
    } else {
        None
    }
}

proof fn lemma_digits_value_prefix_le(s: Seq<char>, k: int)
    requires
        0 <= k <= s.len(),
    ensures
        digits_value(s.take(k)) <= digits_value(s),
    decreases s.len() - k,
{
    if k < s.len() {
        lemma_digits_value_prefix_le(s, k + 1);
        assert(s.take(k + 1).drop_last() =~= s.take(k));
    } else {
        assert(s.take(k) =~= s);
    }
}

fn char_digit(c: char) -> (r: Option<u64>)
    ensures
        is_digit(c) ==> r == Some(digit_value(c) as u64),
        !is_digit(c) ==> r.is_none(),
{
    if c == '0' { Some(0) }
    else if c == '1' { Some(1) }
    else if c == '2' { Some(2) }
    else if c == '3' { Some(3) }
    else if c == '4' { Some(4) }
    else if c == '5' { Some(5) }
    else if c == '6' { Some(6) }
    else if c == '7' { Some(7) }
    else if c == '8' { Some(8) }
    else if c == '9' { Some(9) }
    else { None }
}

/// Parses the characters `v[from..to]` as a `u64`, as `str::parse::<u64>` does.
pub fn parse_u64_chars(v: &Vec<char>, from: usize, to: usize) -> (r: Option<u64>)
    requires
        from <= to <= v.len(),
    ensures
        r == parse_u64_spec(v@.subrange(from as int, to as int)),
{
    let ghost s = v@.subrange(from as int, to as int);
    let mut start = from;
    if from < to && v[from] == '+' {
        start = from + 1;
    }
    let ghost body = v@.subrange(start as int, to as int);
    proof {
        if from < to && v@[from as int] == '+' {
            assert(body =~= s.drop_first());
        } else {
            assert(body =~= s);
        }
    }
    if start == to {
        return None;
    }
    let mut acc: u64 = 0;
    let mut i = start;
    while i < to
        invariant
            start <= i <= to <= v.len(),
            body == v@.subrange(start as int, to as int),
            s == v@.subrange(from as int, to as int),
            body == (if s.len() > 0 && s[0] == '+' { s.drop_first() } else { s }),
            body.len() > 0,
            all_digits(body.take(i - start)),
            acc == digits_value(body.take(i - start)),
        decreases to - i,
    {
        let d = char_digit(v[i]);
        match d {
            None => {
                proof {
                    assert(!is_digit(body[i - start]));
                }
                return None;
            },
            Some(d) => {
                proof {
                    assert(body.take(i - start + 1).drop_last() =~= body.take(i - start));
                    assert(body.take(i - start + 1).last() == v@[i as int]);
                }
                if acc > (u64::MAX - d) / 10 {
                    proof {
                        assert(acc * 10 + d > u64::MAX) by (nonlinear_arith)
                            requires
                                acc > (u64::MAX - d) / 10,
                                d < 10,
                        ;
                        lemma_digits_value_prefix_le(body, i - start + 1);
                    }
                    return None;
                }
                proof {
                    assert(acc * 10 + d <= u64::MAX) by (nonlinear_arith)
                        requires
                            acc <= (u64::MAX - d) / 10,
                            d < 10,
                    ;
                    assert forall|j: int| 0 <= j < body.take(i - start + 1).len() implies #[trigger] is_digit(
                        body.take(i - start + 1)[j],
                    ) by {
                        if j < i - start {
                            assert(body.take(i - start + 1)[j] == body.take(i - start)[j]);
                        }
                    }
                }
                acc = acc * 10 + d;
                i = i + 1;
            },
        }
    }
    proof {
        assert(body.take(to - start) =~= body);
    }
    Some(acc)
}

/// Parses a string slice as a `u64`, as `str::parse::<u64>` does.
pub fn parse_u64(s: &str) -> (r: Option<u64>)
    ensures
        r == parse_u64_spec(s@),
{
    let v = chars_of(s);
    proof {
        assert(v@.subrange(0, v@.len() as int) =~= v@);
    }
    parse_u64_chars(&v, 0, v.len())
}

// ---------------------------------------------------------------------------
// Whitespace trimming and splitting
// ---------------------------------------------------------------------------

/// Unicode `White_Space`, the set `char::is_whitespace` (and so `str::trim`) uses.
pub open spec fn is_whitespace(c: char) -> bool {
    ('\u{9}' <= c && c <= '\u{d}') || c == ' ' || c == '\u{85}' || c == '\u{a0}' || c == '\u{1680}'
        || ('\u{2000}' <= c && c <= '\u{200a}') || c == '\u{2028}' || c == '\u{2029}' || c
        == '\u{202f}' || c == '\u{205f}' || c == '\u{3000}'
}

fn char_is_whitespace(c: char) -> (b: bool)
    ensures
        b == is_whitespace(c),
{
    ('\u{9}' <= c && c <= '\u{d}') || c == ' ' || c == '\u{85}' || c == '\u{a0}' || c == '\u{1680}'
        || ('\u{2000}' <= c && c <= '\u{200a}') || c == '\u{2028}' || c == '\u{2029}' || c
        == '\u{202f}' || c == '\u{205f}' || c == '\u{3000}'
}

/// `s` without leading whitespace.
pub open spec fn trim_start(s: Seq<char>) -> Seq<char>
    decreases s.len(),
{
    if s.len() > 0 && is_whitespace(s[0]) {
        trim_start(s.drop_first())
    } else {
        s
    }
}

/// `s` without trailing whitespace.
pub open spec fn trim_end(s: Seq<char>) -> Seq<char>
    decreases s.len(),
{
    if s.len() > 0 && is_whitespace(s.last()) {
        trim_end(s.drop_last())
    } else {
        s
    }
}

/// `s` without leading and trailing whitespace (`str::trim`).
pub open spec fn trim(s: Seq<char>) -> Seq<char> {
    trim_end(trim_start(s))
}

proof fn lemma_trim_start_at(s: Seq<char>, a: int)
    requires
        0 <= a <= s.len(),
        forall|j: int| 0 <= j < a ==> #[trigger] is_whitespace(s[j]),
        a == s.len() || !is_whitespace(s[a]),
    ensures
        trim_start(s) == s.subrange(a, s.len() as int),
    decreases a,
{
    if a == 0 {
        assert(s.subrange(0, s.len() as int) =~= s);
    } else {
        let t = s.drop_first();
        assert forall|j: int| 0 <= j < a - 1 implies #[trigger] is_whitespace(t[j]) by {
            assert(t[j] == s[j + 1]);
        }
        if a - 1 < t.len() {
            assert(t[a - 1] == s[a]);
        }
        lemma_trim_start_at(t, a - 1);
        assert(t.subrange(a - 1, t.len() as int) =~= s.subrange(a, s.len() as int));
    }
}

proof fn lemma_trim_end_at(s: Seq<char>, b: int)
    requires
        0 <= b <= s.len(),
        forall|j: int| b <= j < s.len() ==> #[trigger] is_whitespace(s[j]),
        b == 0 || !is_whitespace(s[b - 1]),
    ensures
        trim_end(s) == s.subrange(0, b),
    decreases s.len() - b,
{
    if b == s.len() {
        assert(s.subrange(0, b) =~= s);
    } else {
        let t = s.drop_last();
        assert forall|j: int| b <= j < t.len() implies #[trigger] is_whitespace(t[j]) by {
            assert(t[j] == s[j]);
        }
        if b > 0 {
            assert(t[b - 1] == s[b - 1]);
        }
        lemma_trim_end_at(t, b);
        assert(t.subrange(0, b) =~= s.subrange(0, b));
    }
}

/// Bounds `(a, b)` such that `v[a..b]` is `v[from..to]` trimmed.
pub fn trim_bounds(v: &Vec<char>, from: usize, to: usize) -> (r: (usize, usize))
    requires
        from <= to <= v.len(),
    ensures
        from <= r.0 <= r.1 <= to,
        v@.subrange(r.0 as int, r.1 as int) == trim(v@.subrange(from as int, to as int)),
{
    let ghost s = v@.subrange(from as int, to as int);
    let mut a = from;
    while a < to && char_is_whitespace(v[a])
        invariant
            from <= a <= to <= v.len(),
            forall|j: int| from <= j < a ==> #[trigger] is_whitespace(v@[j]),
        decreases to - a,
    {
        a = a + 1;
    }
    proof {
        assert forall|j: int| 0 <= j < a - from implies #[trigger] is_whitespace(s[j]) by {
            assert(s[j] == v@[from + j]);
        }
        if a < to {
            assert(s[a - from] == v@[a as int]);
        }
        lemma_trim_start_at(s, a - from);
    }
    let ghost t = v@.subrange(a as int, to as int);
    assert(t =~= s.subrange(a - from, s.len() as int));
    let mut b = to;
    while b > a && char_is_whitespace(v[b - 1])
        invariant
            from <= a <= b <= to <= v.len(),
            forall|j: int| b <= j < to ==> #[trigger] is_whitespace(v@[j]),
        decreases b - a,
    {
        b = b - 1;
    }
    proof {
        assert forall|j: int| b - a <= j < t.len() implies #[trigger] is_whitespace(t[j]) by {
            assert(t[j] == v@[a + j]);
        }
        if b > a {
            assert(t[b - a - 1] == v@[b - 1]);
        }
        lemma_trim_end_at(t, b - a);
        assert(t.subrange(0, b - a) =~= v@.subrange(a as int, b as int));
    }
    (a, b)
}

/// The pieces of `s` between occurrences of `sep` (`str::split` with a `char`):
/// one more piece than there are separators.
pub open spec fn split_on(s: Seq<char>, sep: char) -> Seq<Seq<char>>
    decreases s.len(),
{
    if s.len() == 0 {
        seq![Seq::<char>::empty()]
    } else {
        let rest = split_on(s.drop_last(), sep);
        if s.last() == sep {
            rest.push(Seq::<char>::empty())
        } else {
            rest.update(rest.len() - 1, rest.last().push(s.last()))
        }
    }
}

pub proof fn lemma_split_on_nonempty(s: Seq<char>, sep: char)
    ensures
        split_on(s, sep).len() >= 1,
    decreases s.len(),
{
    if s.len() > 0 {
        lemma_split_on_nonempty(s.drop_last(), sep);
    }
}

/// Positions of the pieces of `v` separated by `sep`: piece `k` is
/// `v[r[k].0 .. r[k].1]`.
pub fn split_bounds(v: &Vec<char>, sep: char) -> (r: Vec<(usize, usize)>)
    ensures
        r.len() == split_on(v@, sep).len(),
        r.len() >= 1,
        forall|k: int|
            0 <= k < r.len() ==> {
                &&& (#[trigger] r@[k]).0 <= r@[k].1 <= v.len()
                &&& v@.subrange(r@[k].0 as int, r@[k].1 as int) == split_on(v@, sep)[k]
            },
{
    let mut r: Vec<(usize, usize)> = Vec::new();
    let mut start: usize = 0;
    let mut i: usize = 0;
    while i < v.len()
        invariant
            start <= i <= v.len(),
            r.len() + 1 == split_on(v@.take(i as int), sep).len(),
            forall|k: int|
                0 <= k < r.len() ==> {
                    &&& (#[trigger] r@[k]).0 <= r@[k].1 <= i
                    &&& v@.subrange(r@[k].0 as int, r@[k].1 as int) == split_on(
                        v@.take(i as int),
                        sep,
                    )[k]
                },
            v@.subrange(start as int, i as int) == split_on(v@.take(i as int), sep).last(),
        decreases v.len() - i,
    {
        let ghost old_pieces = split_on(v@.take(i as int), sep);
        proof {
            assert(v@.take(i + 1).drop_last() =~= v@.take(i as int));
            assert(v@.take(i + 1).last() == v@[i as int]);
            lemma_split_on_nonempty(v@.take(i as int), sep);
        }
        if v[i] == sep {
            r.push((start, i));
            start = i + 1;
            proof {
                assert(v@.subrange(start as int, i + 1) =~= Seq::<char>::empty());
            }
        } else {
            proof {
                assert(v@.subrange(start as int, i + 1) =~= v@.subrange(start as int, i as int).push(
                    v@[i as int],
                ));
            }
        }
        i = i + 1;
    }
    proof {
        assert(v@.take(v.len() as int) =~= v@);
        lemma_split_on_nonempty(v@, sep);
    }
    r.push((start, v.len()));
    r
}

} // verus!

verus! {

// ---------------------------------------------------------------------------
// Facts about the rendering, used by round-trip laws
// ---------------------------------------------------------------------------

/// A decimal rendering is a non-empty run of digits denoting the number.
pub proof fn lemma_decimal_digits(n: nat)
    ensures
        decimal(n).len() >= 1,
        all_digits(decimal(n)),
        digits_value(decimal(n)) == n,
    decreases n,
{
    if n < 10 {
        let d = decimal(n);
        assert(d.drop_last() =~= Seq::<char>::empty());
        assert(digits_value(d) == digits_value(d.drop_last()) * 10 + digit_value(d.last()));
        assert(is_digit(d[0]));
    } else {
        lemma_decimal_digits(n / 10);
        let d = decimal(n);
        assert(d.drop_last() =~= decimal(n / 10));
        assert(digits_value(d) == digits_value(d.drop_last()) * 10 + digit_value(d.last()));
        assert(digit_value(d.last()) == n % 10);
        assert forall|i: int| 0 <= i < d.len() implies #[trigger] is_digit(d[i]) by {
            if i < d.len() - 1 {
                assert(d[i] == decimal(n / 10)[i]);
            }
        }
    }
}

/// Reading back the decimal rendering of a 64-bit number gives the number.
pub proof fn lemma_parse_decimal(n: u64)
    ensures
        parse_u64_spec(decimal(n as nat)) == Some(n),
{
    lemma_decimal_digits(n as nat);
    assert(is_digit(decimal(n as nat)[0]));
}

/// A run of digits has no surrounding whitespace.
pub proof fn lemma_trim_digits(s: Seq<char>)
    requires
        s.len() >= 1,
        all_digits(s),
    ensures
        trim(s) == s,
{
    assert(is_digit(s[0]));
    assert(is_digit(s[s.len() - 1]));
    assert(trim_start(s) == s);
}

/// Splitting a text without separators yields the text itself.
pub proof fn lemma_split_no_sep(x: Seq<char>, sep: char)
    requires
        forall|i: int| 0 <= i < x.len() ==> x[i] != sep,
    ensures
        split_on(x, sep) == seq![x],
    decreases x.len(),
{
    if x.len() > 0 {
        let x0 = x.drop_last();
        assert forall|i: int| 0 <= i < x0.len() implies x0[i] != sep by {
            assert(x0[i] == x[i]);
        }
        lemma_split_no_sep(x0, sep);
        assert(x[x.len() - 1] != sep);
        assert(x0.push(x.last()) =~= x);
        assert(seq![x0].update(0, x0.push(x.last())) =~= seq![x]);
        assert(seq![x0].last() == x0);
        assert(split_on(x, sep) == seq![x0].update(0, x0.push(x.last())));
    } else {
        assert(x =~= Seq::<char>::empty());
    }
}

/// Appending separator-free text extends the last piece.
pub proof fn lemma_split_append_no_sep(p: Seq<char>, y: Seq<char>, sep: char)
    requires
        forall|i: int| 0 <= i < y.len() ==> y[i] != sep,
    ensures
        split_on(p + y, sep) == split_on(p, sep).update(
            split_on(p, sep).len() - 1,
            split_on(p, sep).last() + y,
        ),
    decreases y.len(),
{
    lemma_split_on_nonempty(p, sep);
    if y.len() == 0 {
        assert(p + y =~= p);
        assert(split_on(p, sep).last() + y =~= split_on(p, sep).last());
        assert(split_on(p, sep).update(split_on(p, sep).len() - 1, split_on(p, sep).last())
            =~= split_on(p, sep));
    } else {
        let y0 = y.drop_last();
        assert forall|i: int| 0 <= i < y0.len() implies y0[i] != sep by {
            assert(y0[i] == y[i]);
        }
        assert(y[y.len() - 1] != sep);
        lemma_split_append_no_sep(p, y0, sep);
        assert((p + y).drop_last() =~= p + y0);
        assert((p + y).last() == y.last());
        let q = split_on(p, sep);
        let r = q.update(q.len() - 1, q.last() + y0);
        assert(r.last() == q.last() + y0);
        assert((q.last() + y0).push(y.last()) =~= q.last() + y);
        assert(r.update(r.len() - 1, r.last().push(y.last())) =~= q.update(q.len() - 1, q.last() + y));
    }
}

/// `x`, a separator, then `y`, with no separator in either, splits into `[x, y]`.
pub proof fn lemma_split_two(x: Seq<char>, y: Seq<char>, sep: char)
    requires
        forall|i: int| 0 <= i < x.len() ==> x[i] != sep,
        forall|i: int| 0 <= i < y.len() ==> y[i] != sep,
    ensures
        split_on(x.push(sep) + y, sep) == seq![x, y],
{
    lemma_split_no_sep(x, sep);
    let xs = x.push(sep);
    assert(xs.drop_last() =~= x);
    assert(split_on(xs, sep) == seq![x].push(Seq::<char>::empty()));
    lemma_split_append_no_sep(xs, y, sep);
    assert(Seq::<char>::empty() + y =~= y);
    assert(seq![x].push(Seq::<char>::empty()).update(1, Seq::<char>::empty() + y) =~= seq![x, y]);
}

/// Digits are never a given non-digit separator.
pub proof fn lemma_digits_avoid(s: Seq<char>, sep: char)
    requires
        all_digits(s),
        !is_digit(sep),
    ensures
        forall|i: int| 0 <= i < s.len() ==> s[i] != sep,
{
    assert forall|i: int| 0 <= i < s.len() implies s[i] != sep by {
        assert(is_digit(s[i]));
    }
}

/// A message cut to at most `max_chars` characters, with `…` appended when
/// something was cut.
pub open spec fn truncated_text(message: Seq<char>, max_chars: nat) -> Seq<char> {
    if message.len() <= max_chars {
        message
    } else {
        message.take(max_chars as int).push('…')
    }
}

/// Shortens a message for display.
pub fn truncate_message(message: &str, max_chars: usize) -> (r: String)
    ensures
        r@ == truncated_text(message@, max_chars as nat),
{
    let v = chars_of(message);
    if v.len() <= max_chars {
        let r = string_from_chars(&v, 0, v.len());
        assert(v@.subrange(0, v@.len() as int) =~= message@);
        r
    } else {
        let mut r = string_from_chars(&v, 0, max_chars);
        push_char(&mut r, '…');
        assert(v@.subrange(0, max_chars as int) =~= message@.take(max_chars as int));
        r
    }
}

} // verus!
