//! Numbers as text.

use vstd::prelude::*;
use vstd::string::StringExecFns;

verus! {

/// The character for a digit below ten.
pub open spec fn digit(d: nat) -> char {
    (48 + d) as char
}

/// `n` in decimal notation, without leading zeros.
pub open spec fn decimal(n: nat) -> Seq<char>
    decreases n,
{
    if n < 10 {
        seq![digit(n)]
    } else {
        decimal(n / 10).push(digit(n % 10))
    }
}

fn digit_text(d: u64) -> (s: &'static str)
    requires
        d < 10,
    ensures
        s@ == seq![digit(d as nat)],
{
    proof {
        reveal_strlit("0");
        reveal_strlit("1");
        reveal_strlit("2");
        reveal_strlit("3");
        reveal_strlit("4");
        reveal_strlit("5");
        reveal_strlit("6");
        reveal_strlit("7");
        reveal_strlit("8");
        reveal_strlit("9");
    }
    let s: &'static str = if d == 0 {
        "0"
    } else if d == 1 {
        "1"
    } else if d == 2 {
        "2"
    } else if d == 3 {
        "3"
    } else if d == 4 {
        "4"
    } else if d == 5 {
        "5"
    } else if d == 6 {
        "6"
    } else if d == 7 {
        "7"
    } else if d == 8 {
        "8"
    } else {
        "9"
    };
    assert(s@ =~= seq![digit(d as nat)]);
    s
}

/// Append `n` in decimal notation.
pub fn append_decimal(out: &mut String, n: u64)
    ensures
        final(out)@ == old(out)@ + decimal(n as nat),
    decreases n,
{
    let ghost before = out@;
    if n >= 10 {
        append_decimal(out, n / 10);
    }
    out.append(digit_text(n % 10));
    assert(out@ =~= before + decimal(n as nat));
}

/// `n` in decimal notation, with a minus sign when it is negative.
pub open spec fn signed_decimal(n: int) -> Seq<char> {
    if n < 0 {
        "-"@ + decimal((-n) as nat)
    } else {
        decimal(n as nat)
    }
}

/// Append `n` in decimal notation, with a minus sign when it is negative.
pub fn append_signed(out: &mut String, n: i32)
    ensures
        final(out)@ == old(out)@ + signed_decimal(n as int),
{
    let ghost before = out@;
    if n < 0 {
        out.append("-");
        append_decimal(out, (-(n as i64)) as u64);
        assert(out@ =~= before + signed_decimal(n as int));
    } else {
        append_decimal(out, n as u64);
    }
}

/// `prefix`, `n` in decimal notation, and `suffix`, one after the other.
pub fn with_number(prefix: &str, n: u64, suffix: &str) -> (s: String)
    ensures
        s@ == prefix@ + decimal(n as nat) + suffix@,
{
    let mut s: String = String::from_str(prefix);
    append_decimal(&mut s, n);
    s.append(suffix);
    s
}

/// `String::push` appends one character.
pub assume_specification[ String::push ](s: &mut String, c: char)
    ensures
        final(s)@ == old(s)@.push(c),
;

/// The characters of a string.
pub fn chars_of(s: &str) -> (chars: Vec<char>)
    ensures
        chars@ == s@,
{
    let mut chars: Vec<char> = Vec::new();
    for c in it: s.chars()
        invariant
            chars@ == it.seq().take(it.index() as int),
            it.seq() == s@,
    {
        chars.push(c);
    }
    assert(chars@ =~= s@);
    chars
}

/// The string made of `chars`.
pub fn string_of(chars: &[char]) -> (s: String)
    ensures
        s@ == chars@,
{
    let mut s: String = String::new();
    let mut i: usize = 0;
    while i < chars.len()
        invariant
            i <= chars@.len(),
            s@ == chars@.take(i as int),
        decreases chars@.len() - i,
    {
        s.push(chars[i]);
        assert(chars@.take(i + 1) =~= chars@.take(i as int).push(chars@[i as int]));
        i = i + 1;
    }
    assert(chars@.take(chars@.len() as int) =~= chars@);
    s
}

/// Whether `chars` spell `s`.
pub fn spells(chars: &[char], s: &str) -> (b: bool)
    ensures
        b == (chars@ == s@),
{
    let other: Vec<char> = chars_of(s);
    if chars.len() != other.len() {
        return false;
    }
    let mut i: usize = 0;
    while i < chars.len()
        invariant
            i <= chars@.len(),
            chars@.len() == other@.len(),
            other@ == s@,
            forall|k: int| 0 <= k < i ==> chars@[k] == other@[k],
        decreases chars@.len() - i,
    {
        if chars[i] != other[i] {
            return false;
        }
        i = i + 1;
    }
    assert(chars@ =~= s@);
    true
}

/// The characters before the first `stop`, or all of them.
pub open spec fn until(s: Seq<char>, stop: char) -> Seq<char>
    decreases s.len(),
{
    if s.len() == 0 || s[0] == stop {
        Seq::empty()
    } else {
        seq![s[0]] + until(s.skip(1), stop)
    }
}

/// The parts between every two occurrences of `at`.
pub open spec fn split(s: Seq<char>, at: char) -> Seq<Seq<char>>
    decreases s.len(),
{
    let head = until(s, at);
    if head.len() >= s.len() {
        seq![s]
    } else {
        seq![head] + split(s.skip(head.len() as int + 1), at)
    }
}

/// The position of the first `stop` at or after `from`, or the end.
pub fn find_char(s: &[char], from: usize, stop: char) -> (end: usize)
    requires
        from <= s@.len(),
    ensures
        from <= end <= s@.len(),
        until(s@.skip(from as int), stop) == s@.subrange(from as int, end as int),
        end < s@.len() ==> s@[end as int] == stop,
        forall|k: int| from <= k < end ==> s@[k] != stop,
{
    let mut end: usize = from;
    while end < s.len() && s[end] != stop
        invariant
            from <= end <= s@.len(),
            forall|k: int| from <= k < end ==> s@[k] != stop,
        decreases s@.len() - end,
    {
        end = end + 1;
    }
    proof {
        lemma_until(s@, from as int, end as int, stop);
    }
    end
}

proof fn lemma_until(s: Seq<char>, from: int, end: int, stop: char)
    requires
        0 <= from <= end <= s.len(),
        forall|k: int| from <= k < end ==> s[k] != stop,
        end < s.len() ==> s[end] == stop,
    ensures
        until(s.skip(from), stop) == s.subrange(from, end),
    decreases end - from,
{
    let t = s.skip(from);
    if from < end {
        lemma_until(s, from + 1, end, stop);
        assert(t.skip(1) =~= s.skip(from + 1));
        assert(s.subrange(from, end) =~= seq![s[from]] + s.subrange(from + 1, end));
    } else {
        assert(s.subrange(from, end) =~= Seq::empty());
    }
}

/// The characters of `s` from `from` up to `end`.
pub fn slice_chars(s: &[char], from: usize, end: usize) -> (part: Vec<char>)
    requires
        from <= end <= s@.len(),
    ensures
        part@ == s@.subrange(from as int, end as int),
{
    let mut part: Vec<char> = Vec::new();
    let mut i: usize = from;
    while i < end
        invariant
            from <= i <= end <= s@.len(),
            part@ == s@.subrange(from as int, i as int),
        decreases end - i,
    {
        part.push(s[i]);
        assert(s@.subrange(from as int, i + 1) =~= s@.subrange(from as int, i as int).push(
            s@[i as int],
        ));
        i = i + 1;
    }
    part
}

/// The parts of `s` between every two occurrences of `at`.
pub fn split_chars(s: &[char], at: char) -> (parts: Vec<Vec<char>>)
    ensures
        parts@.map_values(|p: Vec<char>| p@) == split(s@, at),
{
    let mut parts: Vec<Vec<char>> = Vec::new();
    let ghost view = |p: Vec<char>| p@;
    let mut from: usize = 0;
    let mut more: bool = true;
    proof {
        assert(s@.skip(0) =~= s@);
        assert(parts@.map_values(view) + split(s@, at) =~= split(s@, at));
    }
    while more
        invariant
            from <= s@.len(),
            view == (|p: Vec<char>| p@),
            more ==> parts@.map_values(view) + split(s@.skip(from as int), at) == split(s@, at),
            !more ==> parts@.map_values(view) == split(s@, at),
        decreases (if more { 1int } else { 0int }), s@.len() - from,
    {
        let ghost rest = s@.skip(from as int);
        let ghost before = parts@.map_values(view);
        let end: usize = find_char(s, from, at);
        let part: Vec<char> = slice_chars(s, from, end);
        let ghost head = part@;
        parts.push(part);
        proof {
            assert(parts@.map_values(view) =~= before.push(head));
            assert(head == until(rest, at));
        }
        if end < s.len() {
            proof {
                assert(rest.skip(head.len() as int + 1) =~= s@.skip(end + 1));
                assert(before.push(head) + split(s@.skip(end + 1), at) =~= before + (seq![head]
                    + split(s@.skip(end + 1), at)));
            }
            from = end + 1;
        } else {
            proof {
                assert(head =~= rest);
                assert(before.push(head) =~= before + seq![head]);
            }
            more = false;
        }
    }
    parts
}

/// The number that a sequence of digits stands for.
pub open spec fn digits_value(s: Seq<char>) -> int
    decreases s.len(),
{
    if s.len() == 0 {
        0
    } else {
        10 * digits_value(s.drop_last()) + (s.last() as u32 - 48)
    }
}

/// The decimal notation of a number consists of digits, does not start with a
/// zero unless that is all, and stands for the number.
pub proof fn law_decimal_stands_for_the_number(n: nat)
    ensures
        decimal(n).len() > 0,
        forall|i: int| 0 <= i < decimal(n).len() ==> '0' <= #[trigger] decimal(n)[i] <= '9',
        digits_value(decimal(n)) == n,
        decimal(n)[0] == '0' ==> decimal(n).len() == 1,
    decreases n,
{
    if n < 10 {
        assert(decimal(n).drop_last() =~= Seq::empty());
        assert(digits_value(Seq::<char>::empty()) == 0);
    } else {
        law_decimal_stands_for_the_number(n / 10);
        assert(decimal(n).drop_last() =~= decimal(n / 10));
        assert(digits_value(decimal(n)) == 10 * digits_value(decimal(n / 10)) + n % 10);
        if decimal(n)[0] == '0' {
            assert(decimal(n / 10)[0] == '0');
            assert(decimal(n / 10).drop_last() =~= Seq::empty());
            assert(digits_value(decimal(n / 10).drop_last()) == 0);
            assert(decimal(n / 10).last() as u32 == 48);
            assert(digits_value(decimal(n / 10)) == 0);
        }
    }
}

/// A negative number has a minus sign before its digits, another one has not.
pub proof fn law_signed_decimal_stands_for_the_number(n: int)
    ensures
        n >= 0 ==> digits_value(signed_decimal(n)) == n && signed_decimal(n)[0] != '-',
        n < 0 ==> signed_decimal(n)[0] == '-' && digits_value(signed_decimal(n).skip(1)) == -n,
{
    reveal_strlit("-");
    if n < 0 {
        law_decimal_stands_for_the_number((-n) as nat);
        assert(signed_decimal(n).skip(1) =~= decimal((-n) as nat));
    } else {
        law_decimal_stands_for_the_number(n as nat);
    }
}

/// What stands before the first `stop` is as much of the text as holds none.
pub proof fn law_until_stops_at_the_first(s: Seq<char>, stop: char)
    ensures
        until(s, stop).is_prefix_of(s),
        !until(s, stop).contains(stop),
        until(s, stop).len() < s.len() ==> s[until(s, stop).len() as int] == stop,
    decreases s.len(),
{
    if s.len() > 0 && s[0] != stop {
        let rest = s.skip(1);
        law_until_stops_at_the_first(rest, stop);
        let head = until(s, stop);
        assert forall|i: int| 0 <= i < head.len() implies head[i] == s[i] && head[i] != stop by {
            if i > 0 {
                assert(head[i] == until(rest, stop)[i - 1]);
                assert(until(rest, stop).contains(head[i]));
                assert(rest[i - 1] == s[i]);
            }
        }
        assert(s.subrange(0, head.len() as int) =~= head);
        if head.len() < s.len() {
            assert(rest[head.len() - 1] == s[head.len() as int]);
        }
    }
}

/// The parts with `at` between every two of them.
pub open spec fn joined_by(parts: Seq<Seq<char>>, at: char) -> Seq<char>
    decreases parts.len(),
{
    if parts.len() == 0 {
        Seq::empty()
    } else if parts.len() == 1 {
        parts[0]
    } else {
        parts[0] + seq![at] + joined_by(parts.skip(1), at)
    }
}

/// What has no `at` in it and ends where the text ends or at an `at` is the
/// start of the text up to there.
proof fn lemma_until_of_append(head: Seq<char>, tail: Seq<char>, at: char)
    requires
        !head.contains(at),
        tail.len() > 0 ==> tail[0] == at,
    ensures
        until(head + tail, at) == head,
    decreases head.len(),
{
    let s = head + tail;
    if head.len() == 0 {
        assert(s =~= tail);
    } else {
        assert(head.contains(head[0]));
        assert(!head.skip(1).contains(at)) by {
            if head.skip(1).contains(at) {
                let i = choose|i: int| 0 <= i < head.skip(1).len() && head.skip(1)[i] == at;
                assert(head[i + 1] == at);
            }
        }
        lemma_until_of_append(head.skip(1), tail, at);
        assert(s.skip(1) =~= head.skip(1) + tail);
        assert(seq![head[0]] + head.skip(1) =~= head);
    }
}

/// Splitting undoes joining: parts without an `at` come back one by one.
pub proof fn law_split_undoes_joining(parts: Seq<Seq<char>>, at: char)
    requires
        parts.len() > 0,
        forall|i: int| 0 <= i < parts.len() ==> !(#[trigger] parts[i]).contains(at),
    ensures
        split(joined_by(parts, at), at) == parts,
    decreases parts.len(),
{
    let s = joined_by(parts, at);
    if parts.len() == 1 {
        lemma_until_of_append(parts[0], Seq::empty(), at);
        assert(parts[0] + Seq::<char>::empty() =~= parts[0]);
        assert(seq![s] =~= parts);
    } else {
        let rest = parts.skip(1);
        let tail = seq![at] + joined_by(rest, at);
        assert(s =~= parts[0] + tail);
        lemma_until_of_append(parts[0], tail, at);
        assert(s.skip(parts[0].len() as int + 1) =~= joined_by(rest, at));
        assert forall|i: int| 0 <= i < rest.len() implies !(#[trigger] rest[i]).contains(at) by {
            assert(rest[i] == parts[i + 1]);
        }
        law_split_undoes_joining(rest, at);
        assert(seq![parts[0]] + rest =~= parts);
    }
}

/// Joining undoes splitting, and no part holds what was split at.
pub proof fn law_joining_undoes_splitting(s: Seq<char>, at: char)
    ensures
        split(s, at).len() > 0,
        joined_by(split(s, at), at) == s,
        forall|i: int| 0 <= i < split(s, at).len() ==> !(#[trigger] split(s, at)[i]).contains(at),
    decreases s.len(),
{
    law_until_stops_at_the_first(s, at);
    let head = until(s, at);
    if head.len() >= s.len() {
        assert(head =~= s);
    } else {
        let rest = s.skip(head.len() as int + 1);
        law_joining_undoes_splitting(rest, at);
        let parts = split(s, at);
        assert(parts.skip(1) =~= split(rest, at));
        assert(head + seq![at] + rest =~= s);
        assert forall|i: int| 0 <= i < parts.len() implies !(#[trigger] parts[i]).contains(at) by {
            if i > 0 {
                assert(parts[i] == split(rest, at)[i - 1]);
            }
        }
    }
}

/// Splitting what stands before and after an `at` splits the whole.
pub proof fn law_split_of_two_texts(a: Seq<char>, b: Seq<char>, at: char)
    ensures
        split(a + seq![at] + b, at) == split(a, at) + split(b, at),
{
    law_joining_undoes_splitting(a, at);
    law_joining_undoes_splitting(b, at);
    let parts = split(a, at) + split(b, at);
    assert forall|i: int| 0 <= i < parts.len() implies !(#[trigger] parts[i]).contains(at) by {
        if i < split(a, at).len() {
            assert(parts[i] == split(a, at)[i]);
        } else {
            assert(parts[i] == split(b, at)[i - split(a, at).len()]);
        }
    }
    lemma_joined_by_append(split(a, at), split(b, at), at);
    law_split_undoes_joining(parts, at);
}

proof fn lemma_joined_by_append(a: Seq<Seq<char>>, b: Seq<Seq<char>>, at: char)
    requires
        a.len() > 0,
        b.len() > 0,
    ensures
        joined_by(a + b, at) == joined_by(a, at) + seq![at] + joined_by(b, at),
    decreases a.len(),
{
    let all = a + b;
    if a.len() == 1 {
        assert(all.skip(1) =~= b);
    } else {
        lemma_joined_by_append(a.skip(1), b, at);
        assert(all.skip(1) =~= a.skip(1) + b);
        assert(joined_by(all, at) =~= joined_by(a, at) + seq![at] + joined_by(b, at));
    }
}

} // verus!
