//! Text primitives over character sequences: the pieces that parsing and
//! formatting in this crate are built from.

use vstd::prelude::*;
use vstd::string::StringExecFns;

verus! {

/// `String::push`: appends one character at the end.
#[verifier::external_body]
pub(crate) fn push_char(s: &mut String, c: char)
    ensures
        final(s)@ == old(s)@.push(c),
{
    s.push(c);
}

/// The characters of a string slice, in order.
pub fn chars_of(s: &str) -> (out: Vec<char>)
    ensures
        out@ == s@,
{
    let mut out: Vec<char> = Vec::new();
    for c in it: s.chars()
        invariant
            out@ == it.seq().take(it.index() as int),
            it.seq() == s@,
    {
        out.push(c);
    }
    out
}

/// A `String` holding the characters `chars[from..to]`.
pub fn string_of(chars: &[char], from: usize, to: usize) -> (out: String)
    requires
        from <= to <= chars@.len(),
    ensures
        out@ == chars@.subrange(from as int, to as int),
{
    let mut out = String::new();
    let mut i = from;
    while i < to
        invariant
            from <= i <= to <= chars@.len(),
            out@ == chars@.subrange(from as int, i as int),
        decreases to - i,
    {
        push_char(&mut out, chars[i]);
        i = i + 1;
    }
    out
}

/// Appends `chars[from..to]` to `out`.
pub fn push_chars(out: &mut String, chars: &[char], from: usize, to: usize)
    requires
        from <= to <= chars@.len(),
    ensures
        final(out)@ == old(out)@ + chars@.subrange(from as int, to as int),
{
    let mut i = from;
    while i < to
        invariant
            from <= i <= to <= chars@.len(),
            out@ == old(out)@ + chars@.subrange(from as int, i as int),
        decreases to - i,
    {
        push_char(out, chars[i]);
        i = i + 1;
    }
}

/// Unicode `White_Space`, the property `char::is_whitespace` and `str::trim` use.
pub open spec fn is_ws(c: char) -> bool {
    let u = c as u32;
    ||| 0x09 <= u <= 0x0d
    ||| u == 0x20
    ||| u == 0x85
    ||| u == 0xa0
    ||| u == 0x1680
    ||| 0x2000 <= u <= 0x200a
    ||| u == 0x2028
    ||| u == 0x2029
    ||| u == 0x202f
    ||| u == 0x205f
    ||| u == 0x3000
}

pub fn char_is_ws(c: char) -> (b: bool)
    ensures
        b == is_ws(c),
{
    let u = c as u32;
    (0x09 <= u && u <= 0x0d) || u == 0x20 || u == 0x85 || u == 0xa0 || u == 0x1680 || (0x2000
        <= u && u <= 0x200a) || u == 0x2028 || u == 0x2029 || u == 0x202f || u == 0x205f || u
        == 0x3000
}

/// `s` with its leading whitespace removed.
pub open spec fn trim_start(s: Seq<char>) -> Seq<char>
    decreases s.len(),
{
    if s.len() > 0 && is_ws(s[0]) {
        trim_start(s.drop_first())
    } else {
        s
    }
}

/// `s` with its trailing whitespace removed.
pub open spec fn trim_end(s: Seq<char>) -> Seq<char>
    decreases s.len(),
{
    if s.len() > 0 && is_ws(s.last()) {
        trim_end(s.drop_last())
    } else {
        s
    }
}

/// `str::trim`.
pub open spec fn trim(s: Seq<char>) -> Seq<char> {
    trim_end(trim_start(s))
}

/// Bounds `[lo, hi)` of `chars[from..to]` once leading and trailing whitespace is cut off.
pub fn trim_bounds(chars: &[char], from: usize, to: usize) -> (r: (usize, usize))
    requires
        from <= to <= chars@.len(),
    ensures
        from <= r.0 <= r.1 <= to,
        chars@.subrange(r.0 as int, r.1 as int) == trim(chars@.subrange(from as int, to as int)),
        chars@.subrange(r.0 as int, to as int) == trim_start(chars@.subrange(from as int, to as int)),
{
    let ghost s = chars@.subrange(from as int, to as int);
    let mut lo = from;
    while lo < to && char_is_ws(chars[lo])
        invariant
            from <= lo <= to <= chars@.len(),
            trim_start(s) == trim_start(chars@.subrange(lo as int, to as int)),
        decreases to - lo,
    {
        assert(chars@.subrange(lo as int, to as int).drop_first() =~= chars@.subrange(
            lo + 1,
            to as int,
        ));
        lo = lo + 1;
    }
    let ghost t = chars@.subrange(lo as int, to as int);
    assert(trim_start(s) == t);
    let mut hi = to;
    while hi > lo && char_is_ws(chars[hi - 1])
        invariant
            lo <= hi <= to <= chars@.len(),
            trim_end(t) == trim_end(chars@.subrange(lo as int, hi as int)),
        decreases hi - lo,
    {
        assert(chars@.subrange(lo as int, hi as int).drop_last() =~= chars@.subrange(
            lo as int,
            hi - 1,
        ));
        hi = hi - 1;
    }
    (lo, hi)
}


/// The character for a decimal digit.
pub open spec fn digit_char(d: nat) -> char {
    if d == 0 { '0' }
    else if d == 1 { '1' }
    else if d == 2 { '2' }
    else if d == 3 { '3' }
    else if d == 4 { '4' }
    else if d == 5 { '5' }
    else if d == 6 { '6' }
    else if d == 7 { '7' }
    else if d == 8 { '8' }
    else { '9' }
}

/// The value of a decimal digit character, when it is one.
pub open spec fn digit_value(c: char) -> nat {
    (c as u32 - '0' as u32) as nat
}

pub open spec fn is_digit(c: char) -> bool {
    '0' as u32 <= c as u32 <= '9' as u32
}

/// The decimal representation of `n`, as `Display` writes it.
pub open spec fn dec(n: nat) -> Seq<char>
    decreases n,
{
    if n < 10 {
        seq![digit_char(n)]
    } else {
        dec(n / 10).push(digit_char(n % 10))
    }
}

/// `k` copies of `c`.
pub open spec fn repeat(c: char, k: nat) -> Seq<char> {
    Seq::new(k, |_i: int| c)
}

/// `{:0w}`: the decimal representation of `n`, left-padded with zeros to `w` characters.
pub open spec fn dec_pad(n: nat, w: nat) -> Seq<char> {
    if dec(n).len() < w {
        repeat('0', (w - dec(n).len()) as nat) + dec(n)
    } else {
        dec(n)
    }
}

pub fn digit(d: u64) -> (c: char)
    requires
        d < 10,
    ensures
        c == digit_char(d as nat),
{
    if d == 0 { '0' }
    else if d == 1 { '1' }
    else if d == 2 { '2' }
    else if d == 3 { '3' }
    else if d == 4 { '4' }
    else if d == 5 { '5' }
    else if d == 6 { '6' }
    else if d == 7 { '7' }
    else if d == 8 { '8' }
    else { '9' }
}

pub proof fn lemma_dec_len(n: nat)
    ensures
        1 <= dec(n).len(),
        n < 10 <==> dec(n).len() == 1,
        n < 100 ==> dec(n).len() <= 2,
        n < 1000 ==> dec(n).len() <= 3,
        n < 10000 ==> dec(n).len() <= 4,
    decreases n,
{
    if n >= 10 {
        lemma_dec_len(n / 10);
    }
}

/// Appends the decimal representation of `n`.
pub fn push_dec(out: &mut String, n: u64)
    ensures
        final(out)@ == old(out)@ + dec(n as nat),
    decreases n,
{
    if n >= 10 {
        push_dec(out, n / 10);
    }
    push_char(out, digit(n % 10));
    proof {
        if n >= 10 {
            assert(dec(n as nat) == dec((n / 10) as nat).push(digit_char((n % 10) as nat)));
        }
    }
}

/// Appends `n` left-padded with zeros to `width` characters.
pub fn push_dec_pad(out: &mut String, n: u64, width: usize)
    ensures
        final(out)@ == old(out)@ + dec_pad(n as nat, width as nat),
{
    let mut digits = String::new();
    push_dec(&mut digits, n);
    let len = digits.unicode_len();
    let ghost before = out@;
    if len < width {
        let mut k: usize = 0;
        while k < width - len
            invariant
                len < width,
                k <= width - len,
                out@ == before + repeat('0', k as nat),
            decreases width - len - k,
        {
            push_char(out, '0');
            k = k + 1;
            assert(out@ =~= before + repeat('0', k as nat));
        }
    }
    out.append(digits.as_str());
}

/// A fresh `String` holding the decimal representation of `n`.
pub fn dec_string(n: u64) -> (s: String)
    ensures
        s@ == dec(n as nat),
{
    let mut s = String::new();
    push_dec(&mut s, n);
    s
}

/// The numeric value of a run of decimal digits.
pub open spec fn digits_value(s: Seq<char>) -> nat
    decreases s.len(),
{
    if s.len() == 0 {
        0
    } else {
        digits_value(s.drop_last()) * 10 + digit_value(s.last())
    }
}

pub open spec fn all_digits(s: Seq<char>) -> bool {
    forall|i: int| 0 <= i < s.len() ==> is_digit(#[trigger] s[i])
}

/// What `str::parse` gives for an unsigned integer type whose largest value is `max`:
/// an optional `+`, then at least one decimal digit, and a value no larger than `max`.
pub open spec fn parse_unsigned(s: Seq<char>, max: nat) -> Option<nat> {
    let d = if s.len() > 0 && s[0] == '+' { s.drop_first() } else { s };
    if d.len() > 0 && all_digits(d) && digits_value(d) <= max {
        Some(digits_value(d))
    } else {
        None
    }
}

proof fn lemma_digits_value_grows(s: Seq<char>, c: char)
    requires
        is_digit(c),
    ensures
        digits_value(s.push(c)) >= digits_value(s),
        digits_value(s.push(c)) == digits_value(s) * 10 + digit_value(c),
{
    assert(s.push(c).drop_last() =~= s);
}

/// Parses `chars[from..to]` the way `str::parse::<u64>` parses, keeping values no larger than `max`.
pub fn parse_dec(chars: &[char], from: usize, to: usize, max: u64) -> (r: Option<u64>)
    requires
        from <= to <= chars@.len(),
    ensures
        r == (match parse_unsigned(chars@.subrange(from as int, to as int), max as nat) {
            Some(v) => Some(v as u64),
            None => None::<u64>,
        }),
{
    let ghost s = chars@.subrange(from as int, to as int);
    let mut i = from;
    if i < to && chars[i] == '+' {
        i = i + 1;
    }
    let start = i;
    let ghost d = chars@.subrange(start as int, to as int);
    assert(d =~= (if s.len() > 0 && s[0] == '+' { s.drop_first() } else { s }));
    if start == to {
        return None;
    }
    let mut value: u64 = 0;
    let mut overflow = false;
    while i < to
        invariant
            start <= i <= to <= chars@.len(),
            d == chars@.subrange(start as int, to as int),
            d.len() > 0,
            s == chars@.subrange(from as int, to as int),
            parse_unsigned(s, max as nat) == (if all_digits(d) && digits_value(d) <= max {
                Some(digits_value(d))
            } else {
                None
            }),
            all_digits(chars@.subrange(start as int, i as int)),
            !overflow ==> value as nat == digits_value(chars@.subrange(start as int, i as int)),
            !overflow ==> value <= max,
            overflow ==> digits_value(chars@.subrange(start as int, i as int)) > max,
        decreases to - i,
    {
        let c = chars[i];
        #[verifier::truncate]
        let code = c as u32;
        assert(d[i - start] == c);
        if code < 48 || code > 57 {
            assert(!is_digit(c));
            assert(!all_digits(d));
            return None;
        }
        let dv = (code - 48) as u64;
        let ghost prefix = chars@.subrange(start as int, i as int);
        assert(chars@.subrange(start as int, i + 1) =~= prefix.push(c));
        proof {
            lemma_digits_value_grows(prefix, c);
        }
        if !overflow {
            if dv > max || value > (max - dv) / 10 {
                overflow = true;
                assert(value * 10 + dv > max) by (nonlinear_arith)
                    requires
                        dv > max || value > (max - dv) / 10,
                ;
            } else {
                assert(value * 10 + dv <= max) by (nonlinear_arith)
                    requires
                        value <= (max - dv) / 10,
                        dv <= max,
                ;
                value = value * 10 + dv;
            }
        }
        i = i + 1;
    }
    assert(chars@.subrange(start as int, i as int) == d);
    if overflow {
        None
    } else {
        Some(value)
    }
}


/// `p` occurs in `s` starting at index `i`.
pub open spec fn occurs_at(s: Seq<char>, p: Seq<char>, i: int) -> bool {
    0 <= i && i + p.len() <= s.len() && s.subrange(i, i + p.len()) == p
}

pub open spec fn starts_with(s: Seq<char>, p: Seq<char>) -> bool {
    occurs_at(s, p, 0)
}

pub open spec fn ends_with(s: Seq<char>, p: Seq<char>) -> bool {
    occurs_at(s, p, s.len() - p.len())
}

/// `str::contains` with a string pattern.
pub open spec fn contains(s: Seq<char>, p: Seq<char>) -> bool {
    exists|i: int| occurs_at(s, p, i)
}

/// Whether `pat` occurs in `chars` at index `at`.
pub fn matches_at(chars: &[char], at: usize, pat: &[char]) -> (b: bool)
    ensures
        b == occurs_at(chars@, pat@, at as int),
{
    if at > chars.len() || pat.len() > chars.len() - at {
        return false;
    }
    let mut k: usize = 0;
    while k < pat.len()
        invariant
            at + pat@.len() <= chars.len(),
            k <= pat@.len(),
            forall|j: int| 0 <= j < k ==> chars@[at + j] == pat@[j],
        decreases pat@.len() - k,
    {
        if chars[at + k] != pat[k] {
            assert(chars@.subrange(at as int, at + pat@.len())[k as int] != pat@[k as int]);
            return false;
        }
        k = k + 1;
    }
    assert(chars@.subrange(at as int, at + pat@.len()) =~= pat@);
    true
}

/// The first index `i` in `[from, limit]` with `pat` occurring at `i` and ending by `limit`.
pub open spec fn first_occurrence(s: Seq<char>, p: Seq<char>, from: int, limit: int, i: int) -> bool {
    &&& from <= i
    &&& i + p.len() <= limit
    &&& occurs_at(s, p, i)
    &&& forall|j: int| from <= j < i ==> !#[trigger] occurs_at(s, p, j)
}

/// Searches `chars[from..limit]` for the first occurrence of `pat`.
pub fn find_from(chars: &[char], from: usize, limit: usize, pat: &[char]) -> (r: Option<usize>)
    requires
        from <= limit <= chars@.len(),
    ensures
        match r {
            Some(i) => first_occurrence(chars@, pat@, from as int, limit as int, i as int),
            None => forall|j: int|
                from <= j && j + pat@.len() <= limit ==> !#[trigger] occurs_at(chars@, pat@, j),
        },
{
    if pat.len() > limit - from {
        return None;
    }
    let last = limit - pat.len();
    let mut i = from;
    loop
        invariant
            from <= i <= last,
            last + pat@.len() == limit,
            limit <= chars@.len(),
            forall|j: int| from <= j < i ==> !#[trigger] occurs_at(chars@, pat@, j),
        decreases last - i,
    {
        if matches_at(chars, i, pat) {
            return Some(i);
        }
        if i == last {
            return None;
        }
        i = i + 1;
    }
}

/// Searches `chars[from..limit]` for the last occurrence of `pat`.
pub fn rfind_from(chars: &[char], from: usize, limit: usize, pat: &[char]) -> (r: Option<usize>)
    requires
        from <= limit <= chars@.len(),
    ensures
        match r {
            Some(i) => {
                &&& from <= i
                &&& i + pat@.len() <= limit
                &&& occurs_at(chars@, pat@, i as int)
                &&& forall|j: int|
                    i < j && j + pat@.len() <= limit ==> !#[trigger] occurs_at(chars@, pat@, j)
            },
            None => forall|j: int|
                from <= j && j + pat@.len() <= limit ==> !#[trigger] occurs_at(chars@, pat@, j),
        },
{
    if pat.len() > limit - from {
        return None;
    }
    let mut i = limit - pat.len();
    loop
        invariant
            from <= i,
            i + pat@.len() <= limit,
            limit <= chars@.len(),
            forall|j: int| i < j && j + pat@.len() <= limit ==> !#[trigger] occurs_at(chars@, pat@, j),
        decreases i,
    {
        if matches_at(chars, i, pat) {
            return Some(i);
        }
        if i == from {
            return None;
        }
        i = i - 1;
    }
}

/// `char::to_ascii_lowercase`.
pub open spec fn lower(c: char) -> char {
    if 'A' as u32 <= c as u32 <= 'Z' as u32 {
        ((c as u32 + 32) as u32) as char
    } else {
        c
    }
}

pub open spec fn lower_seq(s: Seq<char>) -> Seq<char> {
    s.map_values(|c: char| lower(c))
}

pub fn lower_char(c: char) -> (r: char)
    ensures
        r == lower(c),
{
    if 'A' <= c && c <= 'Z' {
        #[verifier::truncate]
        let u = (c as u32 + 32) as u8;
        u as char
    } else {
        c
    }
}

/// `str::to_ascii_lowercase`, on a character vector.
pub fn lower_chars(chars: &[char]) -> (r: Vec<char>)
    ensures
        r@ == lower_seq(chars@),
{
    let mut r: Vec<char> = Vec::new();
    let mut i: usize = 0;
    while i < chars.len()
        invariant
            i <= chars@.len(),
            r@ == lower_seq(chars@.subrange(0, i as int)),
        decreases chars@.len() - i,
    {
        r.push(lower_char(chars[i]));
        assert(lower_seq(chars@.subrange(0, i + 1)) =~= lower_seq(chars@.subrange(0, i as int)).push(lower(chars@[i as int])));
        i = i + 1;
    }
    assert(chars@.subrange(0, chars@.len() as int) =~= chars@);
    r
}


/// Length of the first line of `s`: the index of its first `\n`, or its whole length.
pub open spec fn line_len(s: Seq<char>) -> nat
    decreases s.len(),
{
    if s.len() == 0 || s[0] == '\n' {
        0
    } else {
        1 + line_len(s.drop_first())
    }
}

pub proof fn lemma_line_len(s: Seq<char>)
    ensures
        line_len(s) <= s.len(),
        line_len(s) < s.len() ==> s[line_len(s) as int] == '\n',
        forall|j: int| 0 <= j < line_len(s) ==> s[j] != '\n',
    decreases s.len(),
{
    if s.len() > 0 && s[0] != '\n' {
        lemma_line_len(s.drop_first());
        assert forall|j: int| 0 <= j < line_len(s) implies s[j] != '\n' by {
            if j > 0 {
                assert(s[j] == s.drop_first()[j - 1]);
            }
        }
    }
}

/// A line ended by `\n` loses one carriage return before it.
pub open spec fn strip_cr(s: Seq<char>) -> Seq<char> {
    if s.len() > 0 && s.last() == '\r' {
        s.drop_last()
    } else {
        s
    }
}

/// `str::lines`: pieces between `\n`s, a `\r` before a `\n` dropped, no empty piece after a
/// final `\n`.
pub open spec fn lines(s: Seq<char>) -> Seq<Seq<char>>
    decreases s.len(),
{
    if s.len() == 0 {
        seq![]
    } else if line_len(s) < s.len() {
        seq![strip_cr(s.take(line_len(s) as int))] + lines(s.skip(line_len(s) + 1int))
    } else {
        seq![s]
    }
}

/// The first line of `chars[from..to]`: its bounds and where the next one starts.
pub fn next_line(chars: &[char], from: usize, to: usize) -> (r: (usize, usize, usize))
    requires
        from < to <= chars@.len(),
    ensures
        from <= r.0 <= r.1 <= to,
        from < r.2 <= to,
        lines(chars@.subrange(from as int, to as int)) == seq![chars@.subrange(r.0 as int, r.1 as int)]
            + lines(chars@.subrange(r.2 as int, to as int)),
{
    let ghost s = chars@.subrange(from as int, to as int);
    let mut e = from;
    while e < to && chars[e] != '\n'
        invariant
            from <= e <= to <= chars@.len(),
            line_len(s) == (e - from) + line_len(chars@.subrange(e as int, to as int)),
        decreases to - e,
    {
        assert(chars@.subrange(e as int, to as int).drop_first() =~= chars@.subrange(e + 1, to as int));
        e = e + 1;
    }
    assert(line_len(s) == e - from);
    assert(s.take(e - from) =~= chars@.subrange(from as int, e as int));
    if e < to {
        assert(s.skip(e - from + 1) =~= chars@.subrange(e + 1, to as int));
        let mut end = e;
        if end > from && chars[end - 1] == '\r' {
            end = end - 1;
            assert(chars@.subrange(from as int, e as int).drop_last() =~= chars@.subrange(
                from as int,
                end as int,
            ));
        }
        assert(lines(chars@.subrange(e + 1, to as int)) == lines(s.skip(line_len(s) + 1int)));
        (from, end, e + 1)
    } else {
        assert(chars@.subrange(to as int, to as int) =~= Seq::<char>::empty());
        assert(s.take(e - from) =~= s);
        (from, e, to)
    }
}

/// Length of the leading run of non-whitespace in `s`.
pub open spec fn word_len(s: Seq<char>) -> nat
    decreases s.len(),
{
    if s.len() == 0 || is_ws(s[0]) {
        0
    } else {
        1 + word_len(s.drop_first())
    }
}

pub proof fn lemma_word_len(s: Seq<char>)
    ensures
        word_len(s) <= s.len(),
        forall|j: int| 0 <= j < word_len(s) ==> !is_ws(#[trigger] s[j]),
        word_len(s) < s.len() ==> is_ws(s[word_len(s) as int]),
    decreases s.len(),
{
    if s.len() > 0 && !is_ws(s[0]) {
        lemma_word_len(s.drop_first());
        assert forall|j: int| 0 <= j < word_len(s) implies !is_ws(#[trigger] s[j]) by {
            if j > 0 {
                assert(s[j] == s.drop_first()[j - 1]);
            }
        }
    }
}

/// `str::split_whitespace`.
pub open spec fn words(s: Seq<char>) -> Seq<Seq<char>>
    decreases s.len(),
{
    if s.len() == 0 {
        seq![]
    } else if is_ws(s[0]) {
        words(s.drop_first())
    } else {
        proof {
            lemma_word_len(s);
        }
        seq![s.take(word_len(s) as int)] + words(s.skip(word_len(s) as int))
    }
}

/// The first word of `chars[from..to]`, if any.
pub fn next_word(chars: &[char], from: usize, to: usize) -> (r: Option<(usize, usize)>)
    requires
        from <= to <= chars@.len(),
    ensures
        match r {
            None => words(chars@.subrange(from as int, to as int)) == Seq::<Seq<char>>::empty(),
            Some((a, b)) => {
                &&& from <= a < b <= to
                &&& words(chars@.subrange(from as int, to as int)) == seq![chars@.subrange(a as int, b as int)]
                    + words(chars@.subrange(b as int, to as int))
            },
        },
{
    let ghost s = chars@.subrange(from as int, to as int);
    let mut a = from;
    while a < to && char_is_ws(chars[a])
        invariant
            from <= a <= to <= chars@.len(),
            words(s) == words(chars@.subrange(a as int, to as int)),
        decreases to - a,
    {
        assert(chars@.subrange(a as int, to as int).drop_first() =~= chars@.subrange(a + 1, to as int));
        a = a + 1;
    }
    if a == to {
        return None;
    }
    let ghost t = chars@.subrange(a as int, to as int);
    let mut b = a;
    while b < to && !char_is_ws(chars[b])
        invariant
            a <= b <= to <= chars@.len(),
            word_len(t) == (b - a) + word_len(chars@.subrange(b as int, to as int)),
        decreases to - b,
    {
        assert(chars@.subrange(b as int, to as int).drop_first() =~= chars@.subrange(b + 1, to as int));
        b = b + 1;
    }
    assert(t.take(b - a) =~= chars@.subrange(a as int, b as int));
    assert(t.skip(b - a) =~= chars@.subrange(b as int, to as int));
    Some((a, b))
}

/// `chars[from..to]` split at whitespace, as bounds of its words.
pub fn split_words(chars: &[char], from: usize, to: usize) -> (r: Vec<(usize, usize)>)
    requires
        from <= to <= chars@.len(),
    ensures
        r@.len() == words(chars@.subrange(from as int, to as int)).len(),
        forall|k: int| 0 <= k < r@.len() ==> {
            &&& from <= (#[trigger] r@[k]).0 <= r@[k].1 <= to
            &&& chars@.subrange(r@[k].0 as int, r@[k].1 as int) == words(chars@.subrange(from as int, to as int))[k]
        },
{
    let ghost all = words(chars@.subrange(from as int, to as int));
    let mut r: Vec<(usize, usize)> = Vec::new();
    let mut i = from;
    loop
        invariant
            from <= i <= to <= chars@.len(),
            all == words(chars@.subrange(from as int, to as int)),
            all == r@.map_values(|p: (usize, usize)| chars@.subrange(p.0 as int, p.1 as int)) + words(chars@.subrange(i as int, to as int)),
            forall|k: int| 0 <= k < r@.len() ==> from <= (#[trigger] r@[k]).0 <= r@[k].1 <= i,
        decreases to - i,
    {
        match next_word(chars, i, to) {
            None => {
                let ghost m = r@.map_values(|p: (usize, usize)| chars@.subrange(p.0 as int, p.1 as int));
                assert(all =~= m);
                assert forall|k: int| 0 <= k < r@.len() implies chars@.subrange(
                    (#[trigger] r@[k]).0 as int,
                    r@[k].1 as int,
                ) == all[k] by {
                    assert(m[k] == chars@.subrange(r@[k].0 as int, r@[k].1 as int));
                }
                return r;
            },
            Some((a, b)) => {
                let ghost before = r@;
                r.push((a, b));
                assert(r@.map_values(|p: (usize, usize)| chars@.subrange(p.0 as int, p.1 as int)) =~= before.map_values(|p: (usize, usize)| chars@.subrange(p.0 as int, p.1 as int)).push(chars@.subrange(a as int, b as int)));
                i = b;
            },
        }
    }
}

/// Pieces joined with `sep` between neighbours (`[T]::join`).
pub open spec fn join(parts: Seq<Seq<char>>, sep: Seq<char>) -> Seq<char>
    decreases parts.len(),
{
    if parts.len() == 0 {
        seq![]
    } else if parts.len() == 1 {
        parts[0]
    } else {
        join(parts.drop_last(), sep) + sep + parts.last()
    }
}


/// Whether `chars` spells exactly `lit`.
pub fn eq_chars(chars: &[char], lit: &str) -> (b: bool)
    ensures
        b == (chars@ == lit@),
{
    let p = chars_of(lit);
    if chars.len() != p.len() {
        return false;
    }
    let m = matches_at(chars, 0, p.as_slice());
    assert(chars@.subrange(0, chars@.len() as int) =~= chars@);
    m
}

/// Whether `chars` begins with `lit`.
pub fn starts_with_lit(chars: &[char], lit: &str) -> (b: bool)
    ensures
        b == starts_with(chars@, lit@),
{
    let p = chars_of(lit);
    matches_at(chars, 0, p.as_slice())
}


/// `String::pop`, keeping only its effect on the string.
#[verifier::external_body]
pub(crate) fn pop_char(s: &mut String)
    ensures
        final(s)@ == (if old(s)@.len() > 0 { old(s)@.drop_last() } else { old(s)@ }),
{
    s.pop();
}

/// The decimal representation of a signed integer, with a leading `-` when negative.
pub open spec fn idec(n: int) -> Seq<char> {
    if n < 0 {
        seq!['-'] + dec((-n) as nat)
    } else {
        dec(n as nat)
    }
}

pub fn push_idec(out: &mut String, n: i64)
    requires
        n > i64::MIN,
    ensures
        final(out)@ == old(out)@ + idec(n as int),
{
    if n < 0 {
        push_char(out, '-');
        push_dec(out, (-n) as u64);
        assert(out@ =~= old(out)@ + idec(n as int));
    } else {
        push_dec(out, n as u64);
    }
}

/// `i32::to_string`.
pub fn i32_string(n: i32) -> (s: String)
    ensures
        s@ == idec(n as int),
{
    let mut s = String::new();
    push_idec(&mut s, n as i64);
    s
}

/// `str::replace`: every non-overlapping occurrence of `p`, scanning left to right,
/// replaced by `r`.
pub open spec fn replace_all(s: Seq<char>, p: Seq<char>, r: Seq<char>) -> Seq<char>
    decreases s.len(),
{
    if p.len() == 0 || s.len() < p.len() {
        s
    } else if starts_with(s, p) {
        r + replace_all(s.skip(p.len() as int), p, r)
    } else {
        seq![s[0]] + replace_all(s.drop_first(), p, r)
    }
}

pub fn replace_str(s: &str, pat: &str, rep: &str) -> (out: String)
    requires
        pat@.len() > 0,
    ensures
        out@ == replace_all(s@, pat@, rep@),
{
    let chars = chars_of(s);
    let p = chars_of(pat);
    let mut out = String::new();
    let mut i: usize = 0;
    assert(chars@.skip(0) =~= s@);
    while i < chars.len()
        invariant
            i <= chars@.len(),
            chars@ == s@,
            p@ == pat@,
            p@.len() > 0,
            replace_all(s@, pat@, rep@) == out@ + replace_all(chars@.skip(i as int), pat@, rep@),
        decreases chars@.len() - i,
    {
        let ghost rest = chars@.skip(i as int);
        if matches_at(chars.as_slice(), i, p.as_slice()) {
            assert(rest.subrange(0, p@.len() as int) =~= chars@.subrange(i as int, i + p@.len()));
            assert(rest.skip(p@.len() as int) =~= chars@.skip(i + p@.len()));
            out.append(rep);
            i = i + p.len();
        } else {
            proof {
                if rest.len() >= p@.len() {
                    assert(rest.subrange(0, p@.len() as int) =~= chars@.subrange(i as int, i + p@.len()));
                }
            }
            assert(rest.drop_first() =~= chars@.skip(i + 1));
            push_char(&mut out, chars[i]);
            i = i + 1;
        }
    }
    assert(chars@.skip(i as int) =~= Seq::<char>::empty());
    out
}

/// Length of the text before the first `sep`.
pub open spec fn piece_len(s: Seq<char>, sep: char) -> nat
    decreases s.len(),
{
    if s.len() == 0 || s[0] == sep {
        0
    } else {
        1 + piece_len(s.drop_first(), sep)
    }
}

pub proof fn lemma_piece_len(s: Seq<char>, sep: char)
    ensures
        piece_len(s, sep) <= s.len(),
        piece_len(s, sep) < s.len() ==> s[piece_len(s, sep) as int] == sep,
        forall|j: int| 0 <= j < piece_len(s, sep) ==> s[j] != sep,
    decreases s.len(),
{
    if s.len() > 0 && s[0] != sep {
        lemma_piece_len(s.drop_first(), sep);
        assert forall|j: int| 0 <= j < piece_len(s, sep) implies s[j] != sep by {
            if j > 0 {
                assert(s[j] == s.drop_first()[j - 1]);
            }
        }
    }
}

/// `str::split` on one character: the pieces between separators, empty ones included.
pub open spec fn split_char(s: Seq<char>, sep: char) -> Seq<Seq<char>>
    decreases s.len(),
{
    if piece_len(s, sep) >= s.len() {
        seq![s]
    } else {
        seq![s.take(piece_len(s, sep) as int)] + split_char(s.skip(piece_len(s, sep) + 1int), sep)
    }
}

/// Where the piece of `chars[from..to]` that starts at `from` ends.
pub fn piece_end(chars: &[char], from: usize, to: usize, sep: char) -> (e: usize)
    requires
        from <= to <= chars@.len(),
    ensures
        e == from + piece_len(chars@.subrange(from as int, to as int), sep),
        from <= e <= to,
        e < to ==> chars@[e as int] == sep,
{
    let mut e = from;
    while e < to && chars[e] != sep
        invariant
            from <= e <= to <= chars@.len(),
            piece_len(chars@.subrange(from as int, to as int), sep) == (e - from) + piece_len(
                chars@.subrange(e as int, to as int),
                sep,
            ),
        decreases to - e,
    {
        assert(chars@.subrange(e as int, to as int).drop_first() =~= chars@.subrange(e + 1, to as int));
        e = e + 1;
    }
    e
}

/// `trim_end_matches(c)`: every trailing `c` removed.
pub open spec fn strip_end_char(s: Seq<char>, c: char) -> Seq<char>
    decreases s.len(),
{
    if s.len() > 0 && s.last() == c {
        strip_end_char(s.drop_last(), c)
    } else {
        s
    }
}

/// Where `chars[from..to]` ends once its trailing `c`s are cut off.
pub fn strip_end_bound(chars: &[char], from: usize, to: usize, c: char) -> (e: usize)
    requires
        from <= to <= chars@.len(),
    ensures
        from <= e <= to,
        chars@.subrange(from as int, e as int) == strip_end_char(chars@.subrange(from as int, to as int), c),
{
    let mut e = to;
    while e > from && chars[e - 1] == c
        invariant
            from <= e <= to <= chars@.len(),
            strip_end_char(chars@.subrange(from as int, to as int), c) == strip_end_char(
                chars@.subrange(from as int, e as int),
                c,
            ),
        decreases e - from,
    {
        assert(chars@.subrange(from as int, e as int).drop_last() =~= chars@.subrange(from as int, e - 1));
        e = e - 1;
    }
    e
}

/// Whether `chars[a..b]` spells exactly `pat`.
pub fn range_eq(chars: &[char], a: usize, b: usize, pat: &[char]) -> (r: bool)
    requires
        a <= b <= chars@.len(),
    ensures
        r == (chars@.subrange(a as int, b as int) == pat@),
{
    if b - a != pat.len() {
        return false;
    }
    matches_at(chars, a, pat)
}

/// The characters of each string.
pub open spec fn strings_view(v: Seq<String>) -> Seq<Seq<char>> {
    v.map_values(|s: String| s@)
}

/// Whether `s` is among the strings of `v`.
pub fn contains_string(v: &Vec<String>, s: &String) -> (b: bool)
    ensures
        b == strings_view(v@).contains(s@),
{
    let mut k: usize = 0;
    while k < v.len()
        invariant
            k <= v@.len(),
            forall|j: int| 0 <= j < k ==> v@[j]@ != s@,
        decreases v@.len() - k,
    {
        if v[k] == *s {
            assert(strings_view(v@)[k as int] == s@);
            return true;
        }
        k = k + 1;
    }
    proof {
        if strings_view(v@).contains(s@) {
            let j = choose|j: int| 0 <= j < strings_view(v@).len() && strings_view(v@)[j] == s@;
            assert(v@[j]@ == s@);
        }
    }
    false
}

/// `trim_start_matches(c)`: every leading `c` removed.
pub open spec fn strip_start_char(s: Seq<char>, c: char) -> Seq<char>
    decreases s.len(),
{
    if s.len() > 0 && s[0] == c {
        strip_start_char(s.drop_first(), c)
    } else {
        s
    }
}

/// Where `chars[from..to]` starts once its leading `c`s are cut off.
pub fn strip_start_bound(chars: &[char], from: usize, to: usize, c: char) -> (b: usize)
    requires
        from <= to <= chars@.len(),
    ensures
        from <= b <= to,
        chars@.subrange(b as int, to as int) == strip_start_char(chars@.subrange(from as int, to as int), c),
{
    let mut b = from;
    while b < to && chars[b] == c
        invariant
            from <= b <= to <= chars@.len(),
            strip_start_char(chars@.subrange(from as int, to as int), c) == strip_start_char(
                chars@.subrange(b as int, to as int),
                c,
            ),
        decreases to - b,
    {
        assert(chars@.subrange(b as int, to as int).drop_first() =~= chars@.subrange(b + 1, to as int));
        b = b + 1;
    }
    b
}

/// Whether `chars[a..b]` holds `pat` somewhere.
pub fn range_contains(chars: &[char], a: usize, b: usize, pat: &[char]) -> (r: bool)
    requires
        a <= b <= chars@.len(),
    ensures
        r == contains(chars@.subrange(a as int, b as int), pat@),
{
    let ghost s = chars@.subrange(a as int, b as int);
    match find_from(chars, a, b, pat) {
        Some(i) => {
            assert(s.subrange(i - a, i - a + pat@.len()) =~= chars@.subrange(i as int, i + pat@.len()));
            assert(occurs_at(s, pat@, i - a));
            true
        },
        None => {
            proof {
                if contains(s, pat@) {
                    let j = choose|j: int| occurs_at(s, pat@, j);
                    assert(s.subrange(j, j + pat@.len()) =~= chars@.subrange(a + j, a + j + pat@.len()));
                    assert(occurs_at(chars@, pat@, a + j));
                }
            }
            false
        },
    }
}

/// `[String]::join`.
pub fn join_strings(parts: &Vec<String>, sep: &str) -> (s: String)
    ensures
        s@ == join(strings_view(parts@), sep@),
{
    let ghost all = strings_view(parts@);
    let mut out = String::new();
    let mut k: usize = 0;
    assert(all.take(0) =~= Seq::<Seq<char>>::empty());
    while k < parts.len()
        invariant
            k <= parts@.len(),
            all == strings_view(parts@),
            out@ == join(all.take(k as int), sep@),
        decreases parts@.len() - k,
    {
        let ghost part = all.take(k + 1);
        assert(part.drop_last() =~= all.take(k as int));
        assert(part.last() == parts@[k as int]@);
        if k > 0 {
            out.append(sep);
        }
        out.append(parts[k].as_str());
        proof {
            if k == 0 {
                assert(part.len() == 1);
            }
        }
        k = k + 1;
    }
    assert(all.take(parts@.len() as int) =~= all);
    out
}

} // verus!
