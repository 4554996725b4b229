//! Character-level text helpers shared by the parsers of this crate.
//!
//! Text is handled as `Seq<char>` in specifications and `Vec<char>` in code.
//! The specifications follow the documented behaviour of the corresponding
//! `str` methods (`lines`, `split`, `trim`, `split_whitespace`, `parse`).
use vstd::prelude::*;

verus! {

broadcast use vstd::string::group_string_axioms;

/// Unicode `White_Space`, the set that `char::is_whitespace` and `str::trim` use.
pub open spec fn is_space(c: char) -> bool {
    let n = c as u32;
    ||| 0x09 <= n <= 0x0D
    ||| n == 0x20
    ||| n == 0x85
    ||| n == 0xA0
    ||| n == 0x1680
    ||| 0x2000 <= n <= 0x200A
    ||| n == 0x2028
    ||| n == 0x2029
    ||| n == 0x202F
    ||| n == 0x205F
    ||| n == 0x3000
}

pub(crate) fn space(c: char) -> (r: bool)
    ensures
        r == is_space(c),
{
    let n = c as u32;
    (0x09 <= n && n <= 0x0D) || n == 0x20 || n == 0x85 || n == 0xA0 || n == 0x1680 || (0x2000
        <= n && n <= 0x200A) || n == 0x2028 || n == 0x2029 || n == 0x202F || n == 0x205F || n
        == 0x3000
}

/// Removes leading white space.
pub open spec fn trim_start(s: Seq<char>) -> Seq<char>
    decreases s.len(),
{
    if s.len() > 0 && is_space(s[0]) {
        trim_start(s.drop_first())
    } else {
        s
    }
}

/// Removes trailing white space.
pub open spec fn trim_end(s: Seq<char>) -> Seq<char>
    decreases s.len(),
{
    if s.len() > 0 && is_space(s.last()) {
        trim_end(s.drop_last())
    } else {
        s
    }
}

/// Removes leading and trailing white space.
pub open spec fn trim(s: Seq<char>) -> Seq<char> {
    trim_end(trim_start(s))
}

/// The pieces between occurrences of `sep`; always at least one piece.
pub open spec fn split(s: Seq<char>, sep: char) -> Seq<Seq<char>>
    decreases s.len(),
{
    if s.len() == 0 {
        seq![Seq::<char>::empty()]
    } else {
        let p = split(s.drop_last(), sep);
        if s.last() == sep {
            p.push(Seq::<char>::empty())
        } else {
            p.update(p.len() - 1, p.last().push(s.last()))
        }
    }
}

/// A line as `str::lines` yields it: a `\r` before its `\n` is dropped.
pub open spec fn strip_cr(line: Seq<char>) -> Seq<char> {
    if line.len() > 0 && line.last() == '\r' {
        line.drop_last()
    } else {
        line
    }
}

/// The lines of `s`, as `str::lines` yields them: split at `\n`, without a
/// final empty line after a trailing newline, a `\r\n` ending counting as one.
pub open spec fn lines(s: Seq<char>) -> Seq<Seq<char>> {
    let parts = split(s, '\n');
    let ended = parts.drop_last().map_values(|l: Seq<char>| strip_cr(l));
    if parts.last().len() == 0 {
        ended
    } else {
        ended.push(parts.last())
    }
}

/// The maximal runs of non-white-space characters, as `str::split_whitespace`
/// yields them.
pub open spec fn words(s: Seq<char>) -> Seq<Seq<char>>
    decreases s.len(),
{
    if s.len() == 0 {
        Seq::empty()
    } else {
        let p = words(s.drop_last());
        if is_space(s.last()) {
            p
        } else if s.len() >= 2 && !is_space(s[s.len() - 2]) {
            p.update(p.len() - 1, p.last().push(s.last()))
        } else {
            p.push(seq![s.last()])
        }
    }
}

pub open spec fn is_digit(c: char) -> bool {
    '0' <= c <= '9'
}

pub open spec fn digit_value(c: char) -> nat {
    (c as u32 - '0' as u32) as nat
}

/// The number a non-empty string of decimal digits denotes.
pub open spec fn decimal(s: Seq<char>) -> nat
    decreases s.len(),
{
    if s.len() == 0 {
        0
    } else {
        decimal(s.drop_last()) * 10 + digit_value(s.last())
    }
}

pub open spec fn all_digits(s: Seq<char>) -> bool {
    forall|i: int| 0 <= i < s.len() ==> is_digit(#[trigger] s[i])
}

/// What `str::parse::<u32>` accepts: an optional `+`, then one or more decimal
/// digits whose value fits in 32 bits.
pub open spec fn parse_u32(s: Seq<char>) -> Option<u32> {
    let d = if s.len() > 0 && s[0] == '+' {
        s.drop_first()
    } else {
        s
    };
    if d.len() > 0 && all_digits(d) && decimal(d) <= u32::MAX {
        Some(decimal(d) as u32)
    } else {
        None
    }
}

/// `s` begins with `p`.
pub open spec fn has_prefix(s: Seq<char>, p: Seq<char>) -> bool {
    p.len() <= s.len() && s.take(p.len() as int) == p
}

/// `s` ends with `p`.
pub open spec fn has_suffix(s: Seq<char>, p: Seq<char>) -> bool {
    p.len() <= s.len() && s.skip(s.len() - p.len()) == p
}

/// `p` occurs in `s` at position `i`.
pub open spec fn occurs_at(s: Seq<char>, p: Seq<char>, i: int) -> bool {
    0 <= i && i + p.len() <= s.len() && s.subrange(i, i + p.len()) == p
}

/// The first position at which `p` occurs in `s`.
pub open spec fn find(s: Seq<char>, p: Seq<char>) -> Option<int>
    decreases s.len(),
{
    if p.len() > s.len() {
        None
    } else if has_prefix(s, p) {
        Some(0)
    } else if s.len() == 0 {
        None
    } else {
        match find(s.drop_first(), p) {
            Some(i) => Some(i + 1),
            None => None,
        }
    }
}

/// `p` occurs somewhere in `s`.
pub open spec fn contains(s: Seq<char>, p: Seq<char>) -> bool {
    find(s, p) is Some
}

/// The position of the first `c` in `s`, or the length of `s` when absent.
pub open spec fn first_index(s: Seq<char>, c: char) -> int
    decreases s.len(),
{
    if s.len() == 0 {
        0
    } else if s[0] == c {
        0
    } else {
        1 + first_index(s.drop_first(), c)
    }
}

/// Every occurrence of `p` (non-empty) replaced by `w`, left to right.
pub open spec fn replace_all(s: Seq<char>, p: Seq<char>, w: Seq<char>) -> Seq<char>
    decreases s.len(),
{
    if p.len() == 0 || s.len() == 0 {
        s
    } else if has_prefix(s, p) {
        w + replace_all(s.skip(p.len() as int), p, w)
    } else {
        seq![s[0]] + replace_all(s.drop_first(), p, w)
    }
}

/// The number of bytes of `c` in UTF-8 (`char::len_utf8`).
pub open spec fn char_utf8_len(c: char) -> nat {
    let n = c as u32;
    if n < 0x80 {
        1
    } else if n < 0x800 {
        2
    } else if n < 0x10000 {
        3
    } else {
        4
    }
}

/// The number of bytes of `s` in UTF-8 (`str::len`).
pub open spec fn utf8_len(s: Seq<char>) -> nat
    decreases s.len(),
{
    if s.len() == 0 {
        0
    } else {
        utf8_len(s.drop_last()) + char_utf8_len(s.last())
    }
}

/// The decimal digits of `n`, as `Display` writes an unsigned integer.
pub open spec fn decimal_text(n: nat) -> Seq<char>
    decreases n,
{
    if n < 10 {
        seq![digit_char(n)]
    } else {
        decimal_text(n / 10).push(digit_char(n % 10))
    }
}

pub open spec fn digit_char(d: nat) -> char {
    if d == 0 {
        '0'
    } else if d == 1 {
        '1'
    } else if d == 2 {
        '2'
    } else if d == 3 {
        '3'
    } else if d == 4 {
        '4'
    } else if d == 5 {
        '5'
    } else if d == 6 {
        '6'
    } else if d == 7 {
        '7'
    } else if d == 8 {
        '8'
    } else {
        '9'
    }
}

/// The text held by an optional string.
pub open spec fn opt_text(o: Option<String>) -> Option<Seq<char>> {
    match o {
        Some(t) => Some(t@),
        None => None,
    }
}

/// The maximal run of decimal digits at the end of `s`.
pub open spec fn digit_suffix(s: Seq<char>) -> Seq<char>
    decreases s.len(),
{
    if s.len() > 0 && is_digit(s.last()) {
        digit_suffix(s.drop_last()).push(s.last())
    } else {
        Seq::empty()
    }
}

/// The characters of a string slice, in order.
pub(crate) fn chars_of(s: &str) -> (r: Vec<char>)
    ensures
        r@ == s@,
{
    let mut r: Vec<char> = Vec::new();
    for c in it: s.chars()
        invariant
            r@ == it.seq().take(it.index()),
    {
        r.push(c);
    }
    r
}

/// Appends one character (`String::push`).
#[verifier::external_body]
pub(crate) fn push_char(s: &mut String, c: char)
    ensures
        final(s)@ == old(s)@.push(c),
{
    s.push(c);
}

/// A string made of the given characters.
pub(crate) fn string_of(v: &Vec<char>) -> (r: String)
    ensures
        r@ == v@,
{
    let mut r = String::new();
    let mut i: usize = 0;
    while i < v.len()
        invariant
            i <= v.len(),
            r@ == v@.take(i as int),
        decreases v.len() - i,
    {
        push_char(&mut r, v[i]);
        assert(v@.take(i + 1) == v@.take(i as int).push(v@[i as int]));
        i += 1;
    }
    assert(v@.take(v.len() as int) == v@);
    r
}


/// The views of a sequence of character vectors.
pub open spec fn texts(v: Seq<Vec<char>>) -> Seq<Seq<char>> {
    v.map_values(|x: Vec<char>| x@)
}

/// A copy of `v[from..to]`.
pub(crate) fn slice(v: &Vec<char>, from: usize, to: usize) -> (r: Vec<char>)
    requires
        from <= to <= v.len(),
    ensures
        r@ == v@.subrange(from as int, to as int),
{
    let mut r: Vec<char> = Vec::new();
    let mut i = from;
    while i < to
        invariant
            from <= i <= to <= v.len(),
            r@ == v@.subrange(from as int, i as int),
        decreases to - i,
    {
        r.push(v[i]);
        i += 1;
    }
    r
}

proof fn lemma_trim_start(s: Seq<char>, i: int)
    requires
        0 <= i <= s.len(),
        forall|k: int| 0 <= k < i ==> is_space(#[trigger] s[k]),
        i == s.len() || !is_space(s[i]),
    ensures
        trim_start(s) == s.skip(i),
    decreases i,
{
    if i > 0 {
        lemma_trim_start(s.drop_first(), i - 1);
        assert(s.drop_first().skip(i - 1) == s.skip(i));
    } else {
        assert(s.skip(0) == s);
    }
}

proof fn lemma_trim_end(s: Seq<char>, j: int)
    requires
        0 <= j <= s.len(),
        forall|k: int| j <= k < s.len() ==> is_space(#[trigger] s[k]),
        j == 0 || !is_space(s[j - 1]),
    ensures
        trim_end(s) == s.take(j),
    decreases s.len() - j,
{
    if j < s.len() {
        lemma_trim_end(s.drop_last(), j);
        assert(s.drop_last().take(j) == s.take(j));
    } else {
        assert(s.take(j) == s);
    }
}

/// `s` without leading and trailing white space.
pub(crate) fn trimmed(s: &Vec<char>) -> (r: Vec<char>)
    ensures
        r@ == trim(s@),
{
    let mut i: usize = 0;
    while i < s.len() && space(s[i])
        invariant
            i <= s.len(),
            forall|k: int| 0 <= k < i ==> is_space(#[trigger] s@[k]),
        decreases s.len() - i,
    {
        i += 1;
    }
    let mut j: usize = s.len();
    while j > i && space(s[j - 1])
        invariant
            i <= j <= s.len(),
            forall|k: int| j <= k < s.len() ==> is_space(#[trigger] s@[k]),
        decreases j,
    {
        j -= 1;
    }
    proof {
        lemma_trim_start(s@, i as int);
        let t = s@.skip(i as int);
        assert forall|k: int| j - i <= k < t.len() implies is_space(#[trigger] t[k]) by {
            assert(t[k] == s@[k + i]);
        }
        lemma_trim_end(t, j - i);
        assert(t.take(j - i) == s@.subrange(i as int, j as int));
    }
    slice(s, i, j)
}

/// The pieces of `s` between occurrences of `sep` (`str::split`).
pub(crate) fn split_on(s: &Vec<char>, sep: char) -> (r: Vec<Vec<char>>)
    ensures
        texts(r@) == split(s@, sep),
{
    let mut pieces: Vec<Vec<char>> = Vec::new();
    let mut cur: Vec<char> = Vec::new();
    let mut i: usize = 0;
    assert(s@.take(0) == Seq::<char>::empty());
    assert(texts(pieces@).push(cur@) == split(s@.take(0), sep));
    while i < s.len()
        invariant
            i <= s.len(),
            texts(pieces@).push(cur@) == split(s@.take(i as int), sep),
        decreases s.len() - i,
    {
        let c = s[i];
        let ghost before = texts(pieces@).push(cur@);
        assert(s@.take(i + 1).drop_last() == s@.take(i as int));
        if c == sep {
            pieces.push(cur);
            cur = Vec::new();
            assert(texts(pieces@).push(cur@) == before.push(Seq::<char>::empty()));
        } else {
            cur.push(c);
            assert(texts(pieces@).push(cur@) == before.update(
                before.len() - 1,
                before.last().push(c),
            ));
        }
        i += 1;
    }
    pieces.push(cur);
    assert(s@.take(s.len() as int) == s@);
    assert(texts(pieces@) == split(s@, sep));
    pieces
}

/// `line` without a final `\r`.
pub(crate) fn without_cr(line: Vec<char>) -> (r: Vec<char>)
    ensures
        r@ == strip_cr(line@),
{
    let mut line = line;
    if line.len() > 0 && line[line.len() - 1] == '\r' {
        line.pop();
    }
    line
}

pub proof fn lemma_split_nonempty(s: Seq<char>, sep: char)
    ensures
        split(s, sep).len() >= 1,
    decreases s.len(),
{
    if s.len() > 0 {
        lemma_split_nonempty(s.drop_last(), sep);
    }
}

/// The lines of `s` (`str::lines`).
pub(crate) fn lines_of(s: &Vec<char>) -> (r: Vec<Vec<char>>)
    ensures
        texts(r@) == lines(s@),
{
    let parts = split_on(s, '\n');
    proof {
        lemma_split_nonempty(s@, '\n');
    }
    let n = parts.len();
    let ghost ps = split(s@, '\n');
    let mut out: Vec<Vec<char>> = Vec::new();
    let mut parts = parts;
    let last = parts.pop().unwrap();
    let ghost body = ps.drop_last();
    assert(texts(parts@) =~= body);
    assert(body.take(0).map_values(|l: Seq<char>| strip_cr(l)) =~= Seq::<Seq<char>>::empty());
    let mut k: usize = 0;
    while k < parts.len()
        invariant
            k <= parts.len(),
            texts(parts@) == body,
            texts(out@) == body.take(k as int).map_values(|l: Seq<char>| strip_cr(l)),
        decreases parts.len() - k,
    {
        let line = parts[k].clone();
        let stripped = without_cr(line);
        let ghost before = out@;
        out.push(stripped);
        proof {
            assert(parts@[k as int]@ == body[k as int]);
            assert(texts(out@) =~= texts(before).push(stripped@));
            assert(body.take(k + 1).map_values(|l: Seq<char>| strip_cr(l)) =~= body.take(
                k as int,
            ).map_values(|l: Seq<char>| strip_cr(l)).push(strip_cr(body[k as int])));
        }
        k += 1;
    }
    assert(body.take(parts.len() as int) == body);
    assert(last@ == ps.last());
    if last.len() > 0 {
        out.push(last);
    }
    out
}

/// The white-space separated words of `s` (`str::split_whitespace`).
pub(crate) fn words_of(s: &Vec<char>) -> (r: Vec<Vec<char>>)
    ensures
        texts(r@) == words(s@),
{
    let mut out: Vec<Vec<char>> = Vec::new();
    let mut cur: Vec<char> = Vec::new();
    let mut in_word = false;
    let mut i: usize = 0;
    assert(s@.take(0) == Seq::<char>::empty());
    while i < s.len()
        invariant
            i <= s.len(),
            in_word == (i > 0 && !is_space(s@[i - 1])),
            !in_word ==> texts(out@) == words(s@.take(i as int)),
            in_word ==> texts(out@).push(cur@) == words(s@.take(i as int)),
        decreases s.len() - i,
    {
        let c = s[i];
        let ghost t = s@.take(i + 1);
        assert(t.drop_last() == s@.take(i as int));
        assert(t.last() == c);
        if i >= 1 {
            assert(t[t.len() - 2] == s@[i - 1]);
        }
        if space(c) {
            if in_word {
                out.push(cur);
                cur = Vec::new();
            }
            in_word = false;
        } else if in_word {
            let ghost before = texts(out@).push(cur@);
            cur.push(c);
            assert(texts(out@).push(cur@) == before.update(before.len() - 1, before.last().push(c)));
        } else {
            cur = Vec::new();
            cur.push(c);
            assert(cur@ == seq![c]);
            in_word = true;
        }
        i += 1;
    }
    if in_word {
        out.push(cur);
    }
    assert(s@.take(s.len() as int) == s@);
    out
}

/// Where each word of `s` starts and ends, as `words` yields them.
pub(crate) fn word_spans(s: &Vec<char>) -> (r: Vec<(usize, usize)>)
    ensures
        r@.len() == words(s@).len(),
        forall|k: int|
            0 <= k < r@.len() ==> (#[trigger] r@[k]).0 <= r@[k].1 <= s@.len() && s@.subrange(
                r@[k].0 as int,
                r@[k].1 as int,
            ) == words(s@)[k],
{
    let mut out: Vec<(usize, usize)> = Vec::new();
    let mut start: usize = 0;
    let mut in_word = false;
    let mut i: usize = 0;
    assert(s@.take(0) == Seq::<char>::empty());
    while i < s.len()
        invariant
            i <= s.len(),
            start <= i,
            in_word == (i > 0 && !is_space(s@[i - 1])),
            forall|k: int|
                0 <= k < out@.len() ==> (#[trigger] out@[k]).0 <= out@[k].1 <= i && s@.subrange(
                    out@[k].0 as int,
                    out@[k].1 as int,
                ) == words(s@.take(i as int))[k],
            !in_word ==> out@.len() == words(s@.take(i as int)).len(),
            in_word ==> out@.len() + 1 == words(s@.take(i as int)).len() && s@.subrange(
                start as int,
                i as int,
            ) == words(s@.take(i as int)).last(),
        decreases s.len() - i,
    {
        let c = s[i];
        let ghost t = s@.take(i + 1);
        let ghost p = words(s@.take(i as int));
        let ghost before = out@;
        assert(t.drop_last() == s@.take(i as int));
        assert(t.last() == c);
        if i >= 1 {
            assert(t[t.len() - 2] == s@[i - 1]);
        }
        if space(c) {
            assert(words(t) == p);
            if in_word {
                out.push((start, i));
                assert forall|k: int| 0 <= k < out@.len() implies (#[trigger] out@[k]).0 <= out@[k].1
                    <= i + 1 && s@.subrange(out@[k].0 as int, out@[k].1 as int) == words(t)[k] by {
                    if k < before.len() {
                        assert(out@[k] == before[k]);
                    }
                }
            }
            in_word = false;
        } else if in_word {
            assert(words(t) == p.update(p.len() - 1, p.last().push(c)));
            assert(s@.subrange(start as int, i + 1) =~= s@.subrange(start as int, i as int).push(c));
            assert forall|k: int| 0 <= k < out@.len() implies (#[trigger] out@[k]).0 <= out@[k].1 <= i
                + 1 && s@.subrange(out@[k].0 as int, out@[k].1 as int) == words(t)[k] by {
                assert(words(t)[k] == p[k]);
            }
        } else {
            start = i;
            in_word = true;
            assert(words(t) == p.push(seq![c]));
            assert(s@.subrange(start as int, i + 1) =~= seq![c]);
            assert forall|k: int| 0 <= k < out@.len() implies (#[trigger] out@[k]).0 <= out@[k].1 <= i
                + 1 && s@.subrange(out@[k].0 as int, out@[k].1 as int) == words(t)[k] by {
                assert(words(t)[k] == p[k]);
            }
        }
        i += 1;
    }
    let ghost before = out@;
    let ghost w = words(s@.take(i as int));
    if in_word {
        out.push((start, i));
        assert forall|k: int| 0 <= k < out@.len() implies (#[trigger] out@[k]).0 <= out@[k].1 <= i
            && s@.subrange(out@[k].0 as int, out@[k].1 as int) == w[k] by {
            if k < before.len() {
                assert(out@[k] == before[k]);
            }
        }
    }
    assert(s@.take(s.len() as int) == s@);
    out
}

/// The value of `s` when `str::parse::<u32>` accepts it.
pub(crate) fn parse_u32_of(s: &Vec<char>) -> (r: Option<u32>)
    ensures
        r == parse_u32(s@),
{
    let start: usize = if s.len() > 0 && s[0] == '+' { 1 } else { 0 };
    let ghost d = if s@.len() > 0 && s@[0] == '+' { s@.drop_first() } else { s@ };
    assert(d == s@.skip(start as int));
    if start >= s.len() {
        return None;
    }
    let mut value: u64 = 0;
    let mut overflow = false;
    let mut i = start;
    assert(d.take(0) == Seq::<char>::empty());
    while i < s.len()
        invariant
            start <= i <= s.len(),
            d == s@.skip(start as int),
            d == (if s@.len() > 0 && s@[0] == '+' { s@.drop_first() } else { s@ }),
            all_digits(d.take(i - start)),
            !overflow ==> value == decimal(d.take(i - start)) && value <= u32::MAX,
            overflow ==> decimal(d.take(i - start)) > u32::MAX,
        decreases s.len() - i,
    {
        let c = s[i];
        if !('0' <= c && c <= '9') {
            assert(d[i - start] == c);
            assert(!all_digits(d));
            assert(parse_u32(s@).is_none());
            return None;
        }
        let ghost t = d.take(i - start + 1);
        assert(t.drop_last() == d.take(i - start));
        assert(t.last() == c);
        let digit = (c as u32 - '0' as u32) as u64;
        if !overflow {
            let next = value * 10 + digit;
            if next > 0xFFFF_FFFF {
                overflow = true;
            } else {
                value = next;
            }
        }
        assert(all_digits(t)) by {
            assert forall|k: int| 0 <= k < t.len() implies is_digit(#[trigger] t[k]) by {
                if k < t.len() - 1 {
                    assert(t[k] == d.take(i - start)[k]);
                }
            }
        }
        i += 1;
    }
    assert(d.take(i - start) == d);
    if overflow {
        None
    } else {
        Some(value as u32)
    }
}


/// Whether `a` and `b` hold the same characters.
pub(crate) fn same(a: &Vec<char>, b: &Vec<char>) -> (r: bool)
    ensures
        r == (a@ == b@),
{
    if a.len() != b.len() {
        return false;
    }
    let mut i: usize = 0;
    while i < a.len()
        invariant
            i <= a.len() == b.len(),
            forall|k: int| 0 <= k < i ==> a@[k] == b@[k],
        decreases a.len() - i,
    {
        if a[i] != b[i] {
            return false;
        }
        i += 1;
    }
    assert(a@ =~= b@);
    true
}

/// Whether `a` holds exactly the characters of `lit`.
pub(crate) fn is(a: &Vec<char>, lit: &str) -> (r: bool)
    ensures
        r == (a@ == lit@),
{
    same(a, &chars_of(lit))
}

/// Whether `p` occurs in `s` at position `i`.
pub(crate) fn occurs(s: &Vec<char>, p: &Vec<char>, i: usize) -> (r: bool)
    ensures
        r == occurs_at(s@, p@, i as int),
{
    if i > s.len() || p.len() > s.len() - i {
        return false;
    }
    let mut k: usize = 0;
    while k < p.len()
        invariant
            i + p.len() <= s.len(),
            k <= p.len(),
            forall|j: int| 0 <= j < k ==> s@[i + j] == p@[j],
        decreases p.len() - k,
    {
        if s[i + k] != p[k] {
            assert(s@.subrange(i as int, i + p.len())[k as int] != p@[k as int]);
            return false;
        }
        k += 1;
    }
    assert(s@.subrange(i as int, i + p.len()) =~= p@);
    true
}

/// Whether `s` begins with `p`.
pub(crate) fn starts(s: &Vec<char>, p: &Vec<char>) -> (r: bool)
    ensures
        r == has_prefix(s@, p@),
{
    let r = occurs(s, p, 0);
    assert(p@.len() <= s@.len() ==> s@.subrange(0, p@.len() as int) == s@.take(p@.len() as int));
    r
}

/// Whether `s` ends with `p`.
pub(crate) fn ends(s: &Vec<char>, p: &Vec<char>) -> (r: bool)
    ensures
        r == has_suffix(s@, p@),
{
    if p.len() > s.len() {
        return false;
    }
    let r = occurs(s, p, s.len() - p.len());
    assert(s@.subrange(s@.len() - p@.len(), s@.len() as int) == s@.skip(s@.len() - p@.len()));
    r
}

proof fn lemma_find_skip(s: Seq<char>, p: Seq<char>, i: int)
    requires
        0 <= i <= s.len(),
        forall|j: int| 0 <= j < i ==> !occurs_at(s, p, j),
    ensures
        find(s, p) == (match find(s.skip(i), p) {
            Some(k) => Some(k + i),
            None => None::<int>,
        }),
    decreases i,
{
    if i == 0 {
        assert(s.skip(0) == s);
    } else {
        if p.len() <= s.len() {
            assert(!occurs_at(s, p, 0));
            assert(s.subrange(0, p.len() as int) == s.take(p.len() as int));
        }
        let t = s.drop_first();
        assert forall|j: int| 0 <= j < i - 1 implies !occurs_at(t, p, j) by {
            assert(!occurs_at(s, p, j + 1));
            if j + p.len() <= t.len() {
                assert(t.subrange(j, j + p.len()) == s.subrange(j + 1, j + 1 + p.len()));
            }
        }
        lemma_find_skip(t, p, i - 1);
        assert(t.skip(i - 1) == s.skip(i));
    }
}

/// The first position at which `p` occurs in `s` (`str::find`).
pub(crate) fn find_in(s: &Vec<char>, p: &Vec<char>) -> (r: Option<usize>)
    ensures
        r matches Some(i) ==> find(s@, p@) == Some(i as int) && occurs_at(s@, p@, i as int),
        r is None ==> find(s@, p@) is None,
{
    let mut i: usize = 0;
    while i < s.len()
        invariant
            i <= s.len(),
            forall|j: int| 0 <= j < i ==> !occurs_at(s@, p@, j),
        decreases s.len() - i,
    {
        if occurs(s, p, i) {
            proof {
                lemma_find_skip(s@, p@, i as int);
                assert(s@.skip(i as int).take(p@.len() as int) == s@.subrange(
                    i as int,
                    i + p@.len(),
                ));
            }
            return Some(i);
        }
        i += 1;
    }
    if occurs(s, p, i) {
        proof {
            lemma_find_skip(s@, p@, i as int);
            assert(s@.skip(i as int).take(p@.len() as int) == s@.subrange(i as int, i + p@.len()));
        }
        return Some(i);
    }
    proof {
        lemma_find_skip(s@, p@, i as int);
        let t = s@.skip(i as int);
        assert(t.len() == 0);
        if p@.len() == 0 {
            assert(occurs_at(s@, p@, i as int)) by {
                assert(s@.subrange(i as int, i as int) =~= p@);
            }
        }
    }
    None
}

proof fn lemma_first_index(s: Seq<char>, c: char, i: int)
    requires
        0 <= i <= s.len(),
        forall|k: int| 0 <= k < i ==> s[k] != c,
        i == s.len() || s[i] == c,
    ensures
        first_index(s, c) == i,
    decreases i,
{
    if i > 0 {
        lemma_first_index(s.drop_first(), c, i - 1);
    }
}

/// The position of the first `c` in `s`, or the length of `s` when absent.
pub(crate) fn index_of(s: &Vec<char>, c: char) -> (r: usize)
    ensures
        r as int == first_index(s@, c),
        r <= s.len(),
{
    let mut i: usize = 0;
    while i < s.len() && s[i] != c
        invariant
            i <= s.len(),
            forall|k: int| 0 <= k < i ==> s@[k] != c,
        decreases s.len() - i,
    {
        i += 1;
    }
    proof {
        lemma_first_index(s@, c, i as int);
    }
    i
}

/// Appends the characters of `w` to `out`.
pub(crate) fn append(out: &mut Vec<char>, w: &Vec<char>)
    ensures
        final(out)@ == old(out)@ + w@,
{
    let mut i: usize = 0;
    while i < w.len()
        invariant
            i <= w.len(),
            out@ == old(out)@ + w@.take(i as int),
        decreases w.len() - i,
    {
        out.push(w[i]);
        assert(w@.take(i + 1) == w@.take(i as int).push(w@[i as int]));
        i += 1;
    }
    assert(w@.take(w.len() as int) == w@);
}

/// Every occurrence of `p` in `s` replaced by `w` (`str::replace`).
pub(crate) fn replaced(s: &Vec<char>, p: &Vec<char>, w: &Vec<char>) -> (r: Vec<char>)
    requires
        p.len() > 0,
    ensures
        r@ == replace_all(s@, p@, w@),
{
    let mut out: Vec<char> = Vec::new();
    let mut i: usize = 0;
    assert(s@.skip(0) == s@);
    while i < s.len()
        invariant
            p@.len() > 0,
            i <= s.len(),
            out@ + replace_all(s@.skip(i as int), p@, w@) == replace_all(s@, p@, w@),
        decreases s.len() - i,
    {
        let ghost t = s@.skip(i as int);
        if occurs(s, p, i) {
            assert(t.take(p@.len() as int) == s@.subrange(i as int, i + p@.len()));
            assert(t.skip(p@.len() as int) == s@.skip(i + p@.len()));
            append(&mut out, w);
            i += p.len();
        } else {
            assert(!has_prefix(t, p@)) by {
                if p@.len() <= t.len() {
                    assert(t.take(p@.len() as int) == s@.subrange(i as int, i + p@.len()));
                }
            }
            assert(t.drop_first() == s@.skip(i + 1));
            assert(t[0] == s@[i as int]);
            out.push(s[i]);
            i += 1;
        }
    }
    assert(s@.skip(i as int).len() == 0);
    out
}

/// The decimal digits of `n` (`u64::to_string`).
pub(crate) fn decimal_of(n: u64) -> (r: Vec<char>)
    ensures
        r@ == decimal_text(n as nat),
    decreases n,
{
    let d = (n % 10) as u32;
    let c = char_of_digit(d);
    if n < 10 {
        let mut r = Vec::new();
        r.push(c);
        r
    } else {
        let mut r = decimal_of(n / 10);
        r.push(c);
        r
    }
}

fn char_of_digit(d: u32) -> (c: char)
    requires
        d < 10,
    ensures
        c == digit_char(d as nat),
{
    if d == 0 {
        '0'
    } else if d == 1 {
        '1'
    } else if d == 2 {
        '2'
    } else if d == 3 {
        '3'
    } else if d == 4 {
        '4'
    } else if d == 5 {
        '5'
    } else if d == 6 {
        '6'
    } else if d == 7 {
        '7'
    } else if d == 8 {
        '8'
    } else {
        '9'
    }
}

proof fn lemma_utf8_len_grows(s: Seq<char>, i: int)
    requires
        0 <= i <= s.len(),
    ensures
        utf8_len(s.take(i)) <= utf8_len(s),
    decreases s.len() - i,
{
    if i < s.len() {
        lemma_utf8_len_grows(s.drop_last(), i);
        assert(s.drop_last().take(i) == s.take(i));
    } else {
        assert(s.take(i) == s);
    }
}

/// Whether `s` takes exactly `n` bytes in UTF-8.
pub(crate) fn utf8_len_is(s: &Vec<char>, n: usize) -> (r: bool)
    ensures
        r == (utf8_len(s@) == n),
{
    let mut total: usize = 0;
    let mut i: usize = 0;
    assert(s@.take(0) == Seq::<char>::empty());
    while i < s.len()
        invariant
            i <= s.len(),
            total == utf8_len(s@.take(i as int)),
            total <= n,
        decreases s.len() - i,
    {
        let v = s[i] as u32;
        let w: usize = if v < 0x80 {
            1
        } else if v < 0x800 {
            2
        } else if v < 0x10000 {
            3
        } else {
            4
        };
        assert(s@.take(i + 1).drop_last() == s@.take(i as int));
        if w > n - total {
            proof {
                lemma_utf8_len_grows(s@, i + 1);
            }
            return false;
        }
        total += w;
        i += 1;
    }
    assert(s@.take(s.len() as int) == s@);
    total == n
}

/// The value of the decimal digits `s[from..to]` when it fits in 64 bits.
pub(crate) fn decimal_u64(s: &Vec<char>, from: usize, to: usize) -> (r: Option<u64>)
    requires
        from <= to <= s.len(),
        all_digits(s@.subrange(from as int, to as int)),
    ensures
        r == (if decimal(s@.subrange(from as int, to as int)) <= u64::MAX {
            Some(decimal(s@.subrange(from as int, to as int)) as u64)
        } else {
            None::<u64>
        }),
{
    let ghost d = s@.subrange(from as int, to as int);
    let mut value: u64 = 0;
    let mut overflow = false;
    let mut i = from;
    assert(d.take(0) == Seq::<char>::empty());
    while i < to
        invariant
            from <= i <= to <= s.len(),
            d == s@.subrange(from as int, to as int),
            all_digits(d),
            !overflow ==> value == decimal(d.take(i - from)),
            overflow ==> decimal(d.take(i - from)) > u64::MAX,
        decreases to - i,
    {
        let c = s[i];
        let ghost t = d.take(i - from + 1);
        assert(t.drop_last() == d.take(i - from));
        assert(t.last() == c);
        assert(is_digit(d[i - from]));
        let digit = (c as u32 - '0' as u32) as u64;
        if !overflow {
            if value > (u64::MAX - digit) / 10 {
                overflow = true;
            } else {
                value = value * 10 + digit;
            }
        }
        i += 1;
    }
    assert(d.take(to - from) == d);
    if overflow {
        None
    } else {
        Some(value)
    }
}

proof fn lemma_digit_suffix(s: Seq<char>, j: int)
    requires
        0 <= j <= s.len(),
        forall|k: int| j <= k < s.len() ==> is_digit(#[trigger] s[k]),
        j == 0 || !is_digit(s[j - 1]),
    ensures
        digit_suffix(s) == s.skip(j),
    decreases s.len() - j,
{
    if j < s.len() {
        lemma_digit_suffix(s.drop_last(), j);
        assert(s.drop_last().skip(j).push(s.last()) == s.skip(j));
    } else {
        assert(s.skip(j).len() == 0);
    }
}

/// Where the maximal run of digits at the end of `s[..to]` starts.
pub(crate) fn digit_suffix_start(s: &Vec<char>, to: usize) -> (r: usize)
    requires
        to <= s.len(),
    ensures
        r <= to,
        s@.take(to as int).skip(r as int) == digit_suffix(s@.take(to as int)),
        all_digits(s@.subrange(r as int, to as int)),
{
    let mut j = to;
    while j > 0 && '0' <= s[j - 1] && s[j - 1] <= '9'
        invariant
            j <= to <= s.len(),
            forall|k: int| j <= k < to ==> is_digit(#[trigger] s@[k]),
        decreases j,
    {
        j -= 1;
    }
    proof {
        let t = s@.take(to as int);
        assert forall|k: int| j <= k < t.len() implies is_digit(#[trigger] t[k]) by {
            assert(t[k] == s@[k]);
        }
        lemma_digit_suffix(t, j as int);
        assert forall|k: int| 0 <= k < s@.subrange(j as int, to as int).len() implies is_digit(
            #[trigger] s@.subrange(j as int, to as int)[k],
        ) by {
            assert(s@.subrange(j as int, to as int)[k] == s@[j + k]);
        }
    }
    j
}


/// Whether `s` takes fewer than `n` bytes in UTF-8.
pub(crate) fn utf8_len_is_below(s: &Vec<char>, n: usize) -> (r: bool)
    ensures
        r == (utf8_len(s@) < n),
{
    if n == 0 {
        return false;
    }
    let mut total: usize = 0;
    let mut i: usize = 0;
    assert(s@.take(0) == Seq::<char>::empty());
    while i < s.len()
        invariant
            i <= s.len(),
            total == utf8_len(s@.take(i as int)),
            total < n,
        decreases s.len() - i,
    {
        let v = s[i] as u32;
        let w: usize = if v < 0x80 {
            1
        } else if v < 0x800 {
            2
        } else if v < 0x10000 {
            3
        } else {
            4
        };
        assert(s@.take(i + 1).drop_last() == s@.take(i as int));
        if w >= n - total {
            proof {
                lemma_utf8_len_grows(s@, i + 1);
            }
            return false;
        }
        total += w;
        i += 1;
    }
    assert(s@.take(s.len() as int) == s@);
    true
}

/// `a` sorts before `b` as `String`'s order has it: character by character by
/// code point (the order of their UTF-8 bytes), a proper prefix first.
pub open spec fn text_less(a: Seq<char>, b: Seq<char>) -> bool
    decreases a.len(),
{
    if a.len() == 0 {
        b.len() > 0
    } else if b.len() == 0 {
        false
    } else if a[0] != b[0] {
        a[0] < b[0]
    } else {
        text_less(a.drop_first(), b.drop_first())
    }
}

pub proof fn lemma_text_less_irreflexive(a: Seq<char>)
    ensures
        !text_less(a, a),
    decreases a.len(),
{
    if a.len() > 0 {
        lemma_text_less_irreflexive(a.drop_first());
    }
}

pub proof fn lemma_text_less_total(a: Seq<char>, b: Seq<char>)
    ensures
        a != b ==> text_less(a, b) || text_less(b, a),
        !(text_less(a, b) && text_less(b, a)),
    decreases a.len(),
{
    if a.len() > 0 && b.len() > 0 {
        lemma_text_less_total(a.drop_first(), b.drop_first());
        if a[0] == b[0] {
            if a != b {
                assert(a =~= seq![a[0]] + a.drop_first());
                assert(b =~= seq![b[0]] + b.drop_first());
                assert(a.drop_first() != b.drop_first());
            }
        }
    } else if a.len() == 0 && b.len() == 0 {
        assert(a =~= b);
    }
}

pub proof fn lemma_text_less_transitive(a: Seq<char>, b: Seq<char>, c: Seq<char>)
    requires
        text_less(a, b),
        text_less(b, c),
    ensures
        text_less(a, c),
    decreases a.len(),
{
    if a.len() > 0 && b.len() > 0 && c.len() > 0 && a[0] == b[0] && b[0] == c[0] {
        lemma_text_less_transitive(a.drop_first(), b.drop_first(), c.drop_first());
    }
}

pub(crate) fn text_less_of(a: &Vec<char>, b: &Vec<char>) -> (r: bool)
    ensures
        r == text_less(a@, b@),
{
    let mut i: usize = 0;
    assert(a@.skip(0) =~= a@ && b@.skip(0) =~= b@);
    while i < a.len() && i < b.len() && a[i] == b[i]
        invariant
            i <= a.len(),
            i <= b.len(),
            text_less(a@, b@) == text_less(a@.skip(i as int), b@.skip(i as int)),
        decreases a.len() - i,
    {
        assert(a@.skip(i as int).drop_first() =~= a@.skip(i + 1));
        assert(b@.skip(i as int).drop_first() =~= b@.skip(i + 1));
        i += 1;
    }
    if i == a.len() {
        i < b.len()
    } else if i == b.len() {
        false
    } else {
        assert(a@.skip(i as int)[0] == a@[i as int] && b@.skip(i as int)[0] == b@[i as int]);
        a[i] < b[i]
    }
}



/// Reading back the decimal text of a number gives the number.
pub proof fn lemma_decimal_round_trip(n: nat)
    ensures
        decimal(decimal_text(n)) == n,
        all_digits(decimal_text(n)),
        decimal_text(n).len() > 0,
    decreases n,
{
    if n >= 10 {
        lemma_decimal_round_trip(n / 10);
        let t = decimal_text(n);
        assert(t.drop_last() == decimal_text(n / 10));
        assert(digit_value(digit_char(n % 10)) == n % 10);
        assert forall|i: int| 0 <= i < t.len() implies is_digit(#[trigger] t[i]) by {
            if i < t.len() - 1 {
                assert(t[i] == decimal_text(n / 10)[i]);
            }
        }
    } else {
        assert(digit_value(digit_char(n)) == n);
        assert(decimal(decimal_text(n).drop_last()) == 0);
    }
}

} // verus!
