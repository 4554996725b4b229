//! Preview diagnostics: the resident memory a process reports about itself.
use crate::text::{
    all_digits, chars_of, decimal, decimal_u64, has_prefix, is_digit, lines, lines_of, slice,
    starts, texts, words, words_of,
};
use vstd::prelude::*;

verus! {

/// What `str::parse::<u64>` accepts: an optional `+`, then one or more
/// decimal digits whose value fits in 64 bits.
pub open spec fn parse_u64(s: Seq<char>) -> Option<u64> {
    let d = if s.len() > 0 && s[0] == '+' {
        s.drop_first()
    } else {
        s
    };
    if d.len() > 0 && all_digits(d) && decimal(d) <= u64::MAX {
        Some(decimal(d) as u64)
    } else {
        None
    }
}

/// The kibibytes a `VmRSS:` line of `/proc/<pid>/status` reports.
pub open spec fn rss_of_line(line: Seq<char>) -> Option<u64> {
    if has_prefix(line, "VmRSS:"@) && words(line.skip(6)).len() > 0 {
        parse_u64(words(line.skip(6))[0])
    } else {
        None
    }
}

/// The first line that reports the resident set size.
pub open spec fn rss_in(ls: Seq<Seq<char>>) -> Option<u64>
    decreases ls.len(),
{
    if ls.len() == 0 {
        None
    } else if rss_of_line(ls[0]) is Some {
        rss_of_line(ls[0])
    } else {
        rss_in(ls.drop_first())
    }
}

fn parse_u64_of(s: &Vec<char>) -> (r: Option<u64>)
    ensures
        r == parse_u64(s@),
{
    let start: usize = if s.len() > 0 && s[0] == '+' { 1 } else { 0 };
    let ghost d = if s@.len() > 0 && s@[0] == '+' { s@.drop_first() } else { s@ };
    assert(d == s@.subrange(start as int, s.len() as int));
    if start >= s.len() {
        return None;
    }
    let mut i = start;
    while i < s.len()
        invariant
            start <= i <= s.len(),
            d == s@.subrange(start as int, s.len() as int),
            d == (if s@.len() > 0 && s@[0] == '+' { s@.drop_first() } else { s@ }),
            forall|k: int| start <= k < i ==> is_digit(#[trigger] s@[k]),
        decreases s.len() - i,
    {
        if !('0' <= s[i] && s[i] <= '9') {
            assert(d[i - start] == s@[i as int]);
            assert(!all_digits(d));
            assert(parse_u64(s@) is None);
            return None;
        }
        i += 1;
    }
    assert(all_digits(d)) by {
        assert forall|k: int| 0 <= k < d.len() implies is_digit(#[trigger] d[k]) by {
            assert(d[k] == s@[k + start]);
        }
    }
    decimal_u64(s, start, s.len())
}

/// The resident set size, in KiB, that a process status text reports.
pub fn rss_kib(source: &str) -> (r: Option<u64>)
    ensures
        r == rss_in(lines(source@)),
{
    proof {
        reveal_strlit("VmRSS:");
    }
    let ls = lines_of(&chars_of(source));
    let ghost all = lines(source@);
    let prefix = chars_of("VmRSS:");
    let mut i: usize = 0;
    assert(all.skip(0) =~= all);
    while i < ls.len()
        invariant
            i <= ls.len(),
            texts(ls@) == all,
            all == lines(source@),
            prefix@ == "VmRSS:"@,
            prefix@.len() == 6,
            rss_in(all) == rss_in(all.skip(i as int)),
        decreases ls.len() - i,
    {
        let line = &ls[i];
        assert(all.skip(i as int)[0] == line@);
        assert(all.skip(i as int).drop_first() =~= all.skip(i + 1));
        if starts(line, &prefix) {
            let rest = slice(line, 6, line.len());
            assert(rest@ == line@.skip(6));
            let w = words_of(&rest);
            assert(texts(w@) == words(line@.skip(6)));
            if w.len() > 0 {
                assert(w@[0]@ == words(line@.skip(6))[0]);
                let v = parse_u64_of(&w[0]);
                if v.is_some() {
                    assert(rss_of_line(line@) == v);
                    assert(rss_of_line(all.skip(i as int)[0]) == v);
                    assert(rss_in(all.skip(i as int)) == v);
                    return v;
                }
            }
        }
        i += 1;
    }
    assert(all.skip(i as int).len() == 0);
    None
}

} // verus!
