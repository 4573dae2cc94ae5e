use vstd::prelude::*;

verus! {

broadcast use vstd::string::group_string_axioms;

// ---------------------------------------------------------------------------
// The text model: every string is looked at as its sequence of characters.
// ---------------------------------------------------------------------------

/// `pat` stands in `s` starting at index `i`.
pub open spec fn matches_at(s: Seq<char>, pat: Seq<char>, i: int) -> bool {
    &&& 0 <= i
    &&& i + pat.len() <= s.len()
    &&& s.subrange(i, i + pat.len()) == pat
}

/// `pat` stands somewhere in `s`.
pub open spec fn contains(s: Seq<char>, pat: Seq<char>) -> bool {
    exists|i: int| matches_at(s, pat, i)
}

/// `s` begins with `pat`.
pub open spec fn starts_with(s: Seq<char>, pat: Seq<char>) -> bool {
    matches_at(s, pat, 0)
}

/// `s` with every occurrence of `from` replaced by `to`, the occurrences
/// taken from left to right without overlap.
pub open spec fn replace_all(s: Seq<char>, from: Seq<char>, to: Seq<char>) -> Seq<char>
    decreases s.len(),
{
    if from.len() == 0 || s.len() < from.len() {
        s
    } else if s.take(from.len() as int) == from {
        to + replace_all(s.skip(from.len() as int), from, to)
    } else {
        seq![s[0]] + replace_all(s.skip(1), from, to)
    }
}

/// How many times `pat` stands in `s`, the occurrences counted from left to
/// right without overlap, as `replace_all` finds them.
pub open spec fn count_matches(s: Seq<char>, pat: Seq<char>) -> nat
    decreases s.len(),
{
    if pat.len() == 0 || s.len() < pat.len() {
        0
    } else if s.take(pat.len() as int) == pat {
        1 + count_matches(s.skip(pat.len() as int), pat)
    } else {
        count_matches(s.skip(1), pat)
    }
}

/// `s` with every `c` taken out.
pub open spec fn without_char(s: Seq<char>, c: char) -> Seq<char>
    decreases s.len(),
{
    if s.len() == 0 {
        s
    } else if s.last() == c {
        without_char(s.drop_last(), c)
    } else {
        without_char(s.drop_last(), c).push(s.last())
    }
}

/// What follows the last `sep` in `s`, or the whole of `s` when it holds none.
pub open spec fn last_segment(s: Seq<char>, sep: char) -> Seq<char>
    decreases s.len(),
{
    if s.len() == 0 {
        s
    } else if s.last() == sep {
        Seq::empty()
    } else {
        last_segment(s.drop_last(), sep).push(s.last())
    }
}

/// The character of the decimal digit `d`.
pub open spec fn digit_char(d: nat) -> char {
    if d == 0 {
        '0'
    } else if d == 1 {
        '1'
    } else if d == 2 {
        '2'
    } else if d == 3 {
        '3'
    } else if d == 4 {
        '4'
    } else if d == 5 {
        '5'
    } else if d == 6 {
        '6'
    } else if d == 7 {
        '7'
    } else if d == 8 {
        '8'
    } else {
        '9'
    }
}

/// The decimal numeral of `n`, without sign or leading zeros.
pub open spec fn decimal(n: nat) -> Seq<char>
    decreases n,
{
    if n < 10 {
        seq![digit_char(n)]
    } else {
        decimal(n / 10).push(digit_char(n % 10))
    }
}

/// The decimal numeral of `i`, with a leading `-` when it is negative.
pub open spec fn signed_decimal(i: int) -> Seq<char> {
    if i < 0 {
        seq!['-'] + decimal((-i) as nat)
    } else {
        decimal(i as nat)
    }
}

/// The character is in the ASCII range.
pub open spec fn is_ascii_char(c: char) -> bool {
    (c as u32) < 128
}

/// Every character of `s` is in the ASCII range.
pub open spec fn all_ascii(s: Seq<char>) -> bool {
    forall|i: int| 0 <= i < s.len() ==> is_ascii_char(#[trigger] s[i])
}

/// One character made safe for XML: an ASCII character stays as it is, any
/// other becomes the numeric character reference `&#N;` of its code point.
pub open spec fn xml_char(c: char) -> Seq<char> {
    if is_ascii_char(c) {
        seq![c]
    } else {
        seq!['&', '#'] + decimal(c as u32 as nat) + seq![';']
    }
}

/// `s` with each character made safe for XML.
pub open spec fn xml_safe(s: Seq<char>) -> Seq<char>
    decreases s.len(),
{
    if s.len() == 0 {
        Seq::empty()
    } else {
        xml_safe(s.drop_last()) + xml_char(s.last())
    }
}

// ---------------------------------------------------------------------------
// Executable building blocks.
// ---------------------------------------------------------------------------

/// Appending a character to a `String` extends its characters by that one character.
pub assume_specification[ String::push ](s: &mut String, ch: char)
    ensures
        final(s)@ == old(s)@.push(ch),
;

/// The characters of `s`, in order.
pub fn chars_of(s: &str) -> (res: Vec<char>)
    ensures
        res@ == s@,
{
    let mut res: Vec<char> = Vec::new();
    for c in it: s.chars()
        invariant
            res@ == it.seq().take(it.index() as int),
            it.seq() == s@,
    {
        res.push(c);
    }
    res
}

/// A `String` holding the characters of `cs`, in order.
pub fn string_of(cs: &Vec<char>) -> (res: String)
    ensures
        res@ == cs@,
{
    let mut res = String::new();
    let mut i: usize = 0;
    while i < cs.len()
        invariant
            i <= cs.len(),
            res@ == cs@.take(i as int),
        decreases cs.len() - i,
    {
        res.push(cs[i]);
        assert(cs@.take(i + 1) == cs@.take(i as int).push(cs@[i as int]));
        i = i + 1;
    }
    assert(cs@.take(cs.len() as int) == cs@);
    res
}

/// Appends the characters of `s` to `out`.
pub fn push_str(out: &mut Vec<char>, s: &str)
    ensures
        final(out)@ == old(out)@ + s@,
{
    let cs = chars_of(s);
    push_all(out, &cs);
}

/// Appends the characters of `cs` to `out`.
pub fn push_all(out: &mut Vec<char>, cs: &Vec<char>)
    ensures
        final(out)@ == old(out)@ + cs@,
{
    let ghost start = out@;
    let mut i: usize = 0;
    while i < cs.len()
        invariant
            i <= cs.len(),
            out@ == start + cs@.take(i as int),
        decreases cs.len() - i,
    {
        out.push(cs[i]);
        assert(cs@.take(i + 1) == cs@.take(i as int).push(cs@[i as int]));
        i = i + 1;
    }
    assert(cs@.take(cs.len() as int) == cs@);
}

/// Whether `pat` stands in `s` at index `i`.
pub fn matches_at_exec(s: &Vec<char>, pat: &Vec<char>, i: usize) -> (res: bool)
    ensures
        res == matches_at(s@, pat@, i as int),
{
    if pat.len() > s.len() || i > s.len() - pat.len() {
        return false;
    }
    let mut j: usize = 0;
    while j < pat.len()
        invariant
            j <= pat.len(),
            i + pat.len() <= s.len(),
            forall|k: int| 0 <= k < j ==> s@[i + k] == pat@[k],
        decreases pat.len() - j,
    {
        if s[i + j] != pat[j] {
            assert(s@.subrange(i as int, i + pat.len())[j as int] != pat@[j as int]);
            return false;
        }
        j = j + 1;
    }
    assert(s@.subrange(i as int, i + pat.len()) =~= pat@);
    true
}

/// Whether `pat` stands somewhere in `s`.
pub fn contains_exec(s: &Vec<char>, pat: &Vec<char>) -> (res: bool)
    ensures
        res == contains(s@, pat@),
{
    if pat.len() > s.len() {
        return false;
    }
    let mut i: usize = 0;
    while i <= s.len() - pat.len()
        invariant
            pat.len() <= s.len(),
            i <= s.len() - pat.len() + 1,
            forall|k: int| 0 <= k < i ==> !matches_at(s@, pat@, k),
        decreases s.len() - pat.len() + 1 - i,
    {
        if matches_at_exec(s, pat, i) {
            return true;
        }
        if i == s.len() - pat.len() {
            return false;
        }
        i = i + 1;
    }
    false
}

/// Whether `s` begins with `pat`.
pub fn starts_with_exec(s: &Vec<char>, pat: &Vec<char>) -> (res: bool)
    ensures
        res == starts_with(s@, pat@),
{
    matches_at_exec(s, pat, 0)
}

/// One step of `replace_all` when `from` stands at the front.
proof fn lemma_replace_step_match(s: Seq<char>, from: Seq<char>, to: Seq<char>, i: int)
    requires
        from.len() > 0,
        0 <= i,
        matches_at(s, from, i),
    ensures
        replace_all(s.skip(i), from, to) == to + replace_all(s.skip(i + from.len()), from, to),
{
    assert(s.skip(i).take(from.len() as int) =~= s.subrange(i, i + from.len()));
    assert(s.skip(i).skip(from.len() as int) =~= s.skip(i + from.len()));
}

/// One step of `replace_all` when `from` does not stand at the front.
proof fn lemma_replace_step_skip(s: Seq<char>, from: Seq<char>, to: Seq<char>, i: int)
    requires
        from.len() > 0,
        0 <= i < s.len(),
        i + from.len() <= s.len(),
        !matches_at(s, from, i),
    ensures
        replace_all(s.skip(i), from, to) == seq![s[i]] + replace_all(s.skip(i + 1), from, to),
{
    assert(s.skip(i).take(from.len() as int) =~= s.subrange(i, i + from.len()));
    assert(s.skip(i).skip(1) =~= s.skip(i + 1));
}

/// `s` with every occurrence of `from` replaced by `to`, left to right.
pub fn replace_all_exec(s: &Vec<char>, from: &Vec<char>, to: &Vec<char>) -> (res: Vec<char>)
    requires
        from.len() > 0,
    ensures
        res@ == replace_all(s@, from@, to@),
{
    let mut out: Vec<char> = Vec::new();
    let mut i: usize = 0;
    assert(s@.skip(0) =~= s@);
    while i < s.len()
        invariant
            from.len() > 0,
            i <= s.len(),
            out@ + replace_all(s@.skip(i as int), from@, to@) == replace_all(s@, from@, to@),
        decreases s.len() - i,
    {
        if from.len() > s.len() - i {
            // No room is left for `from`: the rest is kept as it is.
            let ghost before = out@;
            let mut k: usize = i;
            while k < s.len()
                invariant
                    i <= k <= s.len(),
                    out@ == before + s@.subrange(i as int, k as int),
                decreases s.len() - k,
            {
                out.push(s[k]);
                assert(s@.subrange(i as int, k + 1) =~= s@.subrange(i as int, k as int).push(
                    s@[k as int],
                ));
                k = k + 1;
            }
            assert(s@.subrange(i as int, s.len() as int) =~= s@.skip(i as int));
            assert(s@.skip(s.len() as int) =~= Seq::<char>::empty());
            i = s.len();
        } else if matches_at_exec(s, from, i) {
            proof {
                lemma_replace_step_match(s@, from@, to@, i as int);
            }
            let ghost before = out@;
            push_all(&mut out, to);
            assert(before + (to@ + replace_all(s@.skip(i + from.len()), from@, to@)) =~= (before
                + to@) + replace_all(s@.skip(i + from.len()), from@, to@));
            i = i + from.len();
        } else {
            proof {
                lemma_replace_step_skip(s@, from@, to@, i as int);
            }
            let ghost before = out@;
            out.push(s[i]);
            assert(before + (seq![s@[i as int]] + replace_all(s@.skip(i + 1), from@, to@)) =~= (
            before.push(s@[i as int])) + replace_all(s@.skip(i + 1), from@, to@));
            i = i + 1;
        }
    }
    assert(s@.skip(s.len() as int) =~= Seq::<char>::empty());
    assert(out@ + Seq::<char>::empty() =~= out@);
    out
}

/// `s` with every `c` taken out.
pub fn without_char_exec(s: &Vec<char>, c: char) -> (res: Vec<char>)
    ensures
        res@ == without_char(s@, c),
{
    let mut out: Vec<char> = Vec::new();
    let mut i: usize = 0;
    while i < s.len()
        invariant
            i <= s.len(),
            out@ == without_char(s@.take(i as int), c),
        decreases s.len() - i,
    {
        assert(s@.take(i + 1).drop_last() =~= s@.take(i as int));
        if s[i] != c {
            out.push(s[i]);
        }
        i = i + 1;
    }
    assert(s@.take(s.len() as int) =~= s@);
    out
}

/// What follows the last `sep` in `s`, or the whole of `s` when it holds none.
pub fn last_segment_exec(s: &Vec<char>, sep: char) -> (res: Vec<char>)
    ensures
        res@ == last_segment(s@, sep),
{
    let mut start: usize = 0;
    let mut i: usize = 0;
    while i < s.len()
        invariant
            start <= i <= s.len(),
            last_segment(s@.take(i as int), sep) == s@.subrange(start as int, i as int),
        decreases s.len() - i,
    {
        assert(s@.take(i + 1).drop_last() =~= s@.take(i as int));
        if s[i] == sep {
            start = i + 1;
            assert(s@.subrange(start as int, i + 1) =~= Seq::<char>::empty());
        } else {
            assert(s@.subrange(start as int, i + 1) =~= s@.subrange(start as int, i as int).push(
                s@[i as int],
            ));
        }
        i = i + 1;
    }
    assert(s@.take(s.len() as int) =~= s@);
    let mut out: Vec<char> = Vec::new();
    let mut k: usize = start;
    while k < s.len()
        invariant
            start <= k <= s.len(),
            out@ == s@.subrange(start as int, k as int),
        decreases s.len() - k,
    {
        out.push(s[k]);
        assert(s@.subrange(start as int, k + 1) =~= s@.subrange(start as int, k as int).push(
            s@[k as int],
        ));
        k = k + 1;
    }
    out
}

/// The character of the decimal digit `d`.
pub fn digit_char_exec(d: u64) -> (c: char)
    requires
        d < 10,
    ensures
        c == digit_char(d as nat),
{
    if d == 0 {
        '0'
    } else if d == 1 {
        '1'
    } else if d == 2 {
        '2'
    } else if d == 3 {
        '3'
    } else if d == 4 {
        '4'
    } else if d == 5 {
        '5'
    } else if d == 6 {
        '6'
    } else if d == 7 {
        '7'
    } else if d == 8 {
        '8'
    } else {
        '9'
    }
}

/// Appends the decimal numeral of `n` to `out`.
pub fn push_decimal(out: &mut Vec<char>, n: u64)
    ensures
        final(out)@ == old(out)@ + decimal(n as nat),
    decreases n,
{
    if n >= 10 {
        push_decimal(out, n / 10);
    }
    let ghost before = out@;
    out.push(digit_char_exec(n % 10));
    proof {
        if n >= 10 {
            assert(decimal(n as nat) == decimal((n / 10) as nat).push(digit_char((n % 10) as nat)));
        }
    }
    assert(out@ =~= old(out)@ + decimal(n as nat));
}

/// Appends the decimal numeral of `i`, with its sign, to `out`.
pub fn push_signed_decimal(out: &mut Vec<char>, i: i64)
    ensures
        final(out)@ == old(out)@ + signed_decimal(i as int),
{
    if i < 0 {
        out.push('-');
        let magnitude: u64 = (-(i as i128)) as u64;
        push_decimal(out, magnitude);
        assert(out@ =~= old(out)@ + signed_decimal(i as int));
    } else {
        push_decimal(out, i as u64);
    }
}

/// Appends the XML-safe form of `c` to `out`.
pub fn push_xml_char(out: &mut Vec<char>, c: char)
    ensures
        final(out)@ == old(out)@ + xml_char(c),
{
    let code: u32 = c as u32;
    if code < 128 {
        out.push(c);
        assert(out@ =~= old(out)@ + xml_char(c));
    } else {
        out.push('&');
        out.push('#');
        push_decimal(out, code as u64);
        out.push(';');
        assert(out@ =~= old(out)@ + xml_char(c));
    }
}

/// `s` with each character that is not ASCII written as a numeric character
/// reference `&#N;`, where `N` is its code point in decimal.
pub fn xml_safe_exec(s: &Vec<char>) -> (res: Vec<char>)
    ensures
        res@ == xml_safe(s@),
{
    let mut out: Vec<char> = Vec::new();
    let mut i: usize = 0;
    while i < s.len()
        invariant
            i <= s.len(),
            out@ == xml_safe(s@.take(i as int)),
        decreases s.len() - i,
    {
        assert(s@.take(i + 1).drop_last() =~= s@.take(i as int));
        push_xml_char(&mut out, s[i]);
        i = i + 1;
    }
    assert(s@.take(s.len() as int) =~= s@);
    out
}

/// The characters of a string literal, copied into a `String`.
pub fn owned(s: &str) -> (res: String)
    ensures
        res@ == s@,
{
    s.to_string()
}

} // verus!

verus! {

/// Whether two texts are the same.
pub fn same_text(a: &str, b: &str) -> (res: bool)
    ensures
        res == (a@ == b@),
{
    owned(a) == owned(b)
}

} // verus!

verus! {

// ---------------------------------------------------------------------------
// Laws of the text model.
// ---------------------------------------------------------------------------

/// Every character of a decimal numeral is a digit.
pub proof fn law_decimal_is_digits(n: nat)
    ensures
        forall|i: int| 0 <= i < decimal(n).len() ==> '0' <= #[trigger] decimal(n)[i] <= '9',
    decreases n,
{
    if n >= 10 {
        law_decimal_is_digits(n / 10);
        let prev = decimal(n / 10);
        assert forall|i: int| 0 <= i < decimal(n).len() implies '0' <= #[trigger] decimal(n)[i] <= '9' by {
            if i < prev.len() {
                assert(decimal(n)[i] == prev[i]);
            }
        }
    }
}

/// The XML-safe form of any text is pure ASCII.
pub proof fn law_xml_safe_is_ascii(s: Seq<char>)
    ensures
        all_ascii(xml_safe(s)),
    decreases s.len(),
{
    if s.len() > 0 {
        law_xml_safe_is_ascii(s.drop_last());
        let prev = xml_safe(s.drop_last());
        let tail = xml_char(s.last());
        assert(all_ascii(tail)) by {
            if !is_ascii_char(s.last()) {
                let d = decimal(s.last() as u32 as nat);
                law_decimal_is_digits(s.last() as u32 as nat);
                assert forall|i: int| 0 <= i < tail.len() implies is_ascii_char(#[trigger] tail[i]) by {
                    if 2 <= i < 2 + d.len() {
                        assert(tail[i] == d[i - 2]);
                    }
                }
            }
        }
        assert forall|i: int| 0 <= i < xml_safe(s).len() implies is_ascii_char(
            #[trigger] xml_safe(s)[i],
        ) by {
            if i < prev.len() {
                assert(xml_safe(s)[i] == prev[i]);
            } else {
                assert(xml_safe(s)[i] == tail[i - prev.len()]);
            }
        }
    }
}

/// Text that is already ASCII is left as it is.
pub proof fn law_xml_safe_keeps_ascii(s: Seq<char>)
    requires
        all_ascii(s),
    ensures
        xml_safe(s) == s,
    decreases s.len(),
{
    if s.len() > 0 {
        assert(all_ascii(s.drop_last()));
        law_xml_safe_keeps_ascii(s.drop_last());
        assert(is_ascii_char(s[s.len() - 1]));
        assert(s.drop_last() + seq![s.last()] =~= s);
    }
}

/// Replacing a pattern that does not occur changes nothing.
pub proof fn law_replace_absent(s: Seq<char>, from: Seq<char>, to: Seq<char>)
    requires
        from.len() > 0,
        !contains(s, from),
    ensures
        replace_all(s, from, to) == s,
    decreases s.len(),
{
    if s.len() >= from.len() {
        assert(s.take(from.len() as int) != from) by {
            assert(s.subrange(0, from.len() as int) =~= s.take(from.len() as int));
            if s.take(from.len() as int) == from {
                assert(matches_at(s, from, 0));
            }
        }
        assert(!contains(s.skip(1), from)) by {
            if contains(s.skip(1), from) {
                let i = choose|i: int| matches_at(s.skip(1), from, i);
                assert(s.skip(1).subrange(i, i + from.len()) =~= s.subrange(i + 1, i + 1 + from.len()));
                assert(matches_at(s, from, i + 1));
            }
        }
        law_replace_absent(s.skip(1), from, to);
        assert(seq![s[0]] + s.skip(1) =~= s);
    }
}

/// Where the pattern occurs, the replacement occurs in the result.
pub proof fn law_replace_present(s: Seq<char>, from: Seq<char>, to: Seq<char>)
    requires
        from.len() > 0,
        contains(s, from),
    ensures
        contains(replace_all(s, from, to), to),
    decreases s.len(),
{
    let i = choose|i: int| matches_at(s, from, i);
    if s.take(from.len() as int) == from {
        let r = replace_all(s, from, to);
        assert(r.subrange(0, to.len() as int) =~= to);
        assert(matches_at(r, to, 0));
    } else {
        assert(i != 0) by {
            if i == 0 {
                assert(s.subrange(0, from.len() as int) =~= s.take(from.len() as int));
            }
        }
        assert(matches_at(s.skip(1), from, i - 1)) by {
            assert(s.skip(1).subrange(i - 1, i - 1 + from.len()) =~= s.subrange(i, i + from.len()));
        }
        law_replace_present(s.skip(1), from, to);
        let rest = replace_all(s.skip(1), from, to);
        let j = choose|j: int| matches_at(rest, to, j);
        let r = replace_all(s, from, to);
        assert(r == seq![s[0]] + rest);
        assert(r.subrange(j + 1, j + 1 + to.len()) =~= rest.subrange(j, j + to.len()));
        assert(matches_at(r, to, j + 1));
    }
}

} // verus!

verus! {

/// If the result of replacing `from` by text that starts with `from` begins
/// with `p`, a text in which the first character of `from` does not occur,
/// then the original text begins with `p` too.
proof fn lemma_replace_keeps_plain_prefix(t: Seq<char>, from: Seq<char>, to: Seq<char>, p: Seq<char>)
    requires
        from.len() > 0,
        to.len() > 0,
        to[0] == from[0],
        !p.contains(from[0]),
        replace_all(t, from, to).len() >= p.len(),
        replace_all(t, from, to).take(p.len() as int) == p,
    ensures
        t.len() >= p.len(),
        t.take(p.len() as int) == p,
    decreases t.len(),
{
    if p.len() == 0 {
        assert(t.take(0) =~= p);
    } else if t.len() < from.len() {
    } else if t.take(from.len() as int) == from {
        let r = replace_all(t, from, to);
        assert(r[0] == to[0]);
        assert(r.take(p.len() as int)[0] == p[0]);
        assert(p.contains(p[0]));
    } else {
        let r = replace_all(t, from, to);
        let rest = replace_all(t.skip(1), from, to);
        assert(r == seq![t[0]] + rest);
        let q = p.skip(1);
        assert(!q.contains(from[0])) by {
            if q.contains(from[0]) {
                let k = choose|k: int| 0 <= k < q.len() && q[k] == from[0];
                assert(p[k + 1] == from[0]);
            }
        }
        assert(rest.take(q.len() as int) =~= q) by {
            assert forall|k: int| 0 <= k < q.len() implies rest[k] == q[k] by {
                assert(r[k + 1] == rest[k]);
                assert(r.take(p.len() as int)[k + 1] == p[k + 1]);
            }
        }
        lemma_replace_keeps_plain_prefix(t.skip(1), from, to, q);
        assert(r[0] == p[0]) by {
            assert(r.take(p.len() as int)[0] == p[0]);
        }
        assert(t.take(p.len() as int) =~= p) by {
            assert forall|k: int| 0 <= k < p.len() implies t[k] == p[k] by {
                if k > 0 {
                    assert(t.skip(1).take(q.len() as int)[k - 1] == q[k - 1]);
                }
            }
        }
    }
}

/// Inserting `extra` after each occurrence of `from` is undone by replacing
/// `from` followed by `extra` with `from`, as long as the first character of
/// `from` does not come back later in `from`.
pub proof fn law_insert_after_undone(s: Seq<char>, from: Seq<char>, extra: Seq<char>)
    requires
        from.len() > 0,
        !from.skip(1).contains(from[0]),
    ensures
        replace_all(replace_all(s, from, from + extra), from + extra, from) == s,
    decreases s.len(),
{
    let to = from + extra;
    let r = replace_all(s, from, to);
    if s.len() < from.len() {
    } else if s.take(from.len() as int) == from {
        let rest = replace_all(s.skip(from.len() as int), from, to);
        law_insert_after_undone(s.skip(from.len() as int), from, extra);
        assert(r == to + rest);
        assert(r.take(to.len() as int) =~= to);
        assert(r.skip(to.len() as int) =~= rest);
        assert(from + s.skip(from.len() as int) =~= s);
    } else {
        let rest = replace_all(s.skip(1), from, to);
        law_insert_after_undone(s.skip(1), from, extra);
        assert(r == seq![s[0]] + rest);
        if r.len() >= to.len() && r.take(to.len() as int) == to {
            // Then `r` would begin with `from`, and so would `s`.
            assert(to[0] == from[0]);
            let p = from.skip(1);
            assert(rest.len() >= p.len());
            assert(rest.take(p.len() as int) =~= p) by {
                assert forall|k: int| 0 <= k < p.len() implies rest[k] == p[k] by {
                    assert(r[k + 1] == rest[k]);
                    assert(r.take(to.len() as int)[k + 1] == to[k + 1]);
                }
            }
            lemma_replace_keeps_plain_prefix(s.skip(1), from, to, p);
            assert(s[0] == from[0]) by {
                assert(r.take(to.len() as int)[0] == to[0]);
            }
            assert(s.take(from.len() as int) =~= from) by {
                assert forall|k: int| 0 <= k < from.len() implies s[k] == from[k] by {
                    if k > 0 {
                        assert(s.skip(1).take(p.len() as int)[k - 1] == p[k - 1]);
                    }
                }
            }
        }
        assert(replace_all(r, to, from) == seq![s[0]] + replace_all(rest, to, from)) by {
            if r.len() >= to.len() {
                assert(r.skip(1) =~= rest);
            } else {
                assert(rest.len() < to.len());
            }
        }
        assert(seq![s[0]] + s.skip(1) =~= s);
    }
}

} // verus!

verus! {

/// A first place at which `pat` stands in `s`, when it stands anywhere.
proof fn lemma_first_match(s: Seq<char>, pat: Seq<char>) -> (j: int)
    requires
        contains(s, pat),
    ensures
        matches_at(s, pat, j),
        forall|i: int| 0 <= i < j ==> !matches_at(s, pat, i),
    decreases s.len(),
{
    if matches_at(s, pat, 0) {
        0
    } else {
        let k = choose|k: int| matches_at(s, pat, k);
        assert(matches_at(s.skip(1), pat, k - 1)) by {
            assert(s.skip(1).subrange(k - 1, k - 1 + pat.len()) =~= s.subrange(k, k + pat.len()));
        }
        let j1 = lemma_first_match(s.skip(1), pat);
        assert(s.subrange(j1 + 1, j1 + 1 + pat.len()) =~= s.skip(1).subrange(j1, j1 + pat.len()));
        assert forall|i: int| 0 <= i < j1 + 1 implies !matches_at(s, pat, i) by {
            if i > 0 && matches_at(s, pat, i) {
                assert(s.skip(1).subrange(i - 1, i - 1 + pat.len()) =~= s.subrange(i, i + pat.len()));
                assert(matches_at(s.skip(1), pat, i - 1));
            }
        }
        j1 + 1
    }
}

/// Where `from` does not stand before position `k`, replacing leaves the
/// first `k` characters as they are.
proof fn lemma_replace_skips_prefix(s: Seq<char>, from: Seq<char>, to: Seq<char>, k: int)
    requires
        from.len() > 0,
        0 <= k <= s.len(),
        forall|i: int| 0 <= i < k ==> !matches_at(s, from, i),
    ensures
        replace_all(s, from, to) == s.take(k) + replace_all(s.skip(k), from, to),
    decreases k,
{
    if k == 0 {
        assert(s.skip(0) =~= s);
        assert(s.take(0) + replace_all(s, from, to) =~= replace_all(s, from, to));
    } else if s.len() < from.len() {
        assert(s.skip(k).len() < from.len());
        assert(s.take(k) + s.skip(k) =~= s);
    } else {
        assert(!matches_at(s, from, 0));
        assert(s.take(from.len() as int) != from) by {
            assert(s.subrange(0, from.len() as int) =~= s.take(from.len() as int));
        }
        let t = s.skip(1);
        assert forall|i: int| 0 <= i < k - 1 implies !matches_at(t, from, i) by {
            if matches_at(t, from, i) {
                assert(t.subrange(i, i + from.len()) =~= s.subrange(i + 1, i + 1 + from.len()));
                assert(matches_at(s, from, i + 1));
            }
        }
        lemma_replace_skips_prefix(t, from, to, k - 1);
        assert(t.skip(k - 1) =~= s.skip(k));
        assert(seq![s[0]] + (t.take(k - 1) + replace_all(s.skip(k), from, to)) =~= s.take(k)
            + replace_all(s.skip(k), from, to));
    }
}

/// After inserting `extra` behind each `from`, `extra` does not stand at the
/// front unless `s` began with `from`: a match there would lie in `s` or hold
/// `from`.
proof fn lemma_no_extra_in_front(s: Seq<char>, from: Seq<char>, extra: Seq<char>)
    requires
        from.len() > 0,
        extra.len() > 0,
        !contains(s, extra),
        !contains(extra, from),
        !matches_at(s, from, 0),
    ensures
        !matches_at(replace_all(s, from, from + extra), extra, 0),
{
    let to = from + extra;
    let r = replace_all(s, from, to);
    if matches_at(r, extra, 0) {
        if !contains(s, from) {
            law_replace_absent(s, from, to);
            assert(matches_at(s, extra, 0));
        } else {
            let j = lemma_first_match(s, from);
            lemma_replace_skips_prefix(s, from, to, j);
            let t = s.skip(j);
            assert(t.take(from.len() as int) =~= s.subrange(j, j + from.len()));
            assert(replace_all(t, from, to) == to + replace_all(t.skip(from.len() as int), from, to));
            // r = s[..j] + from + extra + ...
            assert forall|i: int| 0 <= i < j + from.len() implies r[i] == s[i] by {
                if i >= j {
                    assert(r[i] == to[i - j]);
                    assert(s.subrange(j, j + from.len())[i - j] == from[i - j]);
                }
            }
            if extra.len() <= j + from.len() {
                assert(s.subrange(0, extra.len() as int) =~= r.subrange(0, extra.len() as int));
                assert(matches_at(s, extra, 0));
            } else {
                assert(extra.subrange(j, j + from.len()) =~= from) by {
                    assert forall|i: int| 0 <= i < from.len() implies extra.subrange(j, j + from.len())[i]
                        == from[i] by {
                        assert(extra[j + i] == r[j + i]);
                        assert(r[j + i] == to[i]);
                    }
                }
                assert(matches_at(extra, from, j));
            }
        }
    }
}

/// Inserting `extra` behind each `from` is undone by taking every `extra`
/// out, when `extra` stood nowhere in the text, does not hold `from`, and does
/// not stand across `from` followed by `extra` except right after `from`.
pub proof fn law_insertion_removed(s: Seq<char>, from: Seq<char>, extra: Seq<char>)
    requires
        from.len() > 0,
        extra.len() > 0,
        !contains(s, extra),
        !contains(extra, from),
        forall|i: int| 0 <= i < from.len() ==> !matches_at(from + extra, extra, i),
    ensures
        replace_all(replace_all(s, from, from + extra), extra, Seq::empty()) == s,
    decreases s.len(),
{
    let to = from + extra;
    let r = replace_all(s, from, to);
    let e = Seq::<char>::empty();
    if s.len() < from.len() {
        law_replace_absent(s, extra, e);
    } else if s.take(from.len() as int) == from {
        let rest = replace_all(s.skip(from.len() as int), from, to);
        assert(!contains(s.skip(from.len() as int), extra)) by {
            if contains(s.skip(from.len() as int), extra) {
                let k = choose|k: int| matches_at(s.skip(from.len() as int), extra, k);
                assert(s.skip(from.len() as int).subrange(k, k + extra.len()) =~= s.subrange(
                    k + from.len(),
                    k + from.len() + extra.len(),
                ));
                assert(matches_at(s, extra, k + from.len()));
            }
        }
        law_insertion_removed(s.skip(from.len() as int), from, extra);
        assert(r == to + rest);
        assert forall|i: int| 0 <= i < from.len() implies !matches_at(r, extra, i) by {
            if matches_at(r, extra, i) {
                assert(r.subrange(i, i + extra.len()) =~= to.subrange(i, i + extra.len()));
                assert(matches_at(to, extra, i));
            }
        }
        lemma_replace_skips_prefix(r, extra, e, from.len() as int);
        let tail = r.skip(from.len() as int);
        assert(tail =~= extra + rest);
        assert(tail.take(extra.len() as int) =~= extra);
        assert(tail.skip(extra.len() as int) =~= rest);
        assert(replace_all(tail, extra, e) == e + replace_all(rest, extra, e));
        assert(r.take(from.len() as int) =~= from);
        assert(from + (e + s.skip(from.len() as int)) =~= s);
    } else {
        assert(!matches_at(s, from, 0)) by {
            assert(s.subrange(0, from.len() as int) =~= s.take(from.len() as int));
        }
        lemma_no_extra_in_front(s, from, extra);
        let rest = replace_all(s.skip(1), from, to);
        assert(!contains(s.skip(1), extra)) by {
            if contains(s.skip(1), extra) {
                let k = choose|k: int| matches_at(s.skip(1), extra, k);
                assert(s.skip(1).subrange(k, k + extra.len()) =~= s.subrange(k + 1, k + 1 + extra.len()));
                assert(matches_at(s, extra, k + 1));
            }
        }
        law_insertion_removed(s.skip(1), from, extra);
        assert(r == seq![s[0]] + rest);
        if r.len() >= extra.len() {
            assert(r.take(extra.len() as int) != extra) by {
                assert(r.subrange(0, extra.len() as int) =~= r.take(extra.len() as int));
            }
            assert(r.skip(1) =~= rest);
        } else {
            law_replace_absent(rest, extra, e);
        }
        assert(seq![s[0]] + s.skip(1) =~= s);
    }
}

} // verus!

verus! {

/// Where `pat` does not stand before position `k`, the first `k` characters
/// add nothing to the count.
proof fn lemma_count_skips_prefix(s: Seq<char>, pat: Seq<char>, k: int)
    requires
        pat.len() > 0,
        0 <= k <= s.len(),
        forall|i: int| 0 <= i < k ==> !matches_at(s, pat, i),
    ensures
        count_matches(s, pat) == count_matches(s.skip(k), pat),
    decreases k,
{
    if k == 0 {
        assert(s.skip(0) =~= s);
    } else if s.len() < pat.len() {
        assert(s.skip(k).len() < pat.len());
    } else {
        assert(!matches_at(s, pat, 0));
        assert(s.take(pat.len() as int) != pat) by {
            assert(s.subrange(0, pat.len() as int) =~= s.take(pat.len() as int));
        }
        let t = s.skip(1);
        assert forall|i: int| 0 <= i < k - 1 implies !matches_at(t, pat, i) by {
            if matches_at(t, pat, i) {
                assert(t.subrange(i, i + pat.len()) =~= s.subrange(i + 1, i + 1 + pat.len()));
                assert(matches_at(s, pat, i + 1));
            }
        }
        lemma_count_skips_prefix(t, pat, k - 1);
        assert(t.skip(k - 1) =~= s.skip(k));
    }
}

/// Inserting `extra` behind each `from` puts in as many copies of `extra` as
/// there were of `from`, under the conditions of `law_insertion_removed`.
pub proof fn law_insertion_counted(s: Seq<char>, from: Seq<char>, extra: Seq<char>)
    requires
        from.len() > 0,
        extra.len() > 0,
        !contains(s, extra),
        !contains(extra, from),
        forall|i: int| 0 <= i < from.len() ==> !matches_at(from + extra, extra, i),
    ensures
        count_matches(replace_all(s, from, from + extra), extra) == count_matches(s, from),
    decreases s.len(),
{
    let to = from + extra;
    let r = replace_all(s, from, to);
    if s.len() < from.len() {
        lemma_count_skips_prefix(s, extra, s.len() as int);
    } else if s.take(from.len() as int) == from {
        let rest = replace_all(s.skip(from.len() as int), from, to);
        assert(!contains(s.skip(from.len() as int), extra)) by {
            if contains(s.skip(from.len() as int), extra) {
                let k = choose|k: int| matches_at(s.skip(from.len() as int), extra, k);
                assert(s.skip(from.len() as int).subrange(k, k + extra.len()) =~= s.subrange(
                    k + from.len(),
                    k + from.len() + extra.len(),
                ));
                assert(matches_at(s, extra, k + from.len()));
            }
        }
        law_insertion_counted(s.skip(from.len() as int), from, extra);
        assert(r == to + rest);
        assert forall|i: int| 0 <= i < from.len() implies !matches_at(r, extra, i) by {
            if matches_at(r, extra, i) {
                assert(r.subrange(i, i + extra.len()) =~= to.subrange(i, i + extra.len()));
                assert(matches_at(to, extra, i));
            }
        }
        lemma_count_skips_prefix(r, extra, from.len() as int);
        let tail = r.skip(from.len() as int);
        assert(tail =~= extra + rest);
        assert(tail.take(extra.len() as int) =~= extra);
        assert(tail.skip(extra.len() as int) =~= rest);
    } else {
        assert(!matches_at(s, from, 0)) by {
            assert(s.subrange(0, from.len() as int) =~= s.take(from.len() as int));
        }
        lemma_no_extra_in_front(s, from, extra);
        let rest = replace_all(s.skip(1), from, to);
        assert(!contains(s.skip(1), extra)) by {
            if contains(s.skip(1), extra) {
                let k = choose|k: int| matches_at(s.skip(1), extra, k);
                assert(s.skip(1).subrange(k, k + extra.len()) =~= s.subrange(k + 1, k + 1 + extra.len()));
                assert(matches_at(s, extra, k + 1));
            }
        }
        law_insertion_counted(s.skip(1), from, extra);
        assert(r == seq![s[0]] + rest);
        if r.len() >= extra.len() {
            assert(r.take(extra.len() as int) != extra) by {
                assert(r.subrange(0, extra.len() as int) =~= r.take(extra.len() as int));
            }
            assert(r.skip(1) =~= rest);
        }
    }
}

} // verus!

verus! {

/// The number that a string of decimal digits reads as, most significant
/// digit first.
pub open spec fn digits_value(s: Seq<char>) -> int
    decreases s.len(),
{
    if s.len() == 0 {
        0
    } else {
        digits_value(s.drop_last()) * 10 + (s.last() as int - '0' as int)
    }
}

proof fn lemma_digit_char_value(d: nat)
    requires
        d < 10,
    ensures
        digit_char(d) as int == '0' as int + d,
{
}

/// The decimal numeral of `n` reads back as `n`, and has no leading zero
/// unless it is the numeral of zero.
pub proof fn law_decimal_reads_back(n: nat)
    ensures
        digits_value(decimal(n)) == n,
        decimal(n).len() > 0,
        decimal(n)[0] == '0' ==> n == 0,
    decreases n,
{
    if n < 10 {
        lemma_digit_char_value(n);
        assert(decimal(n).drop_last() =~= Seq::<char>::empty());
        assert(digits_value(Seq::<char>::empty()) == 0);
        assert(decimal(n).last() == digit_char(n));
    } else {
        law_decimal_reads_back(n / 10);
        lemma_digit_char_value(n % 10);
        let prev = decimal(n / 10);
        assert(decimal(n).drop_last() =~= prev);
        assert(decimal(n).last() == digit_char(n % 10));
        assert(decimal(n)[0] == prev[0]);
        assert((n / 10) * 10 + n % 10 == n) by (nonlinear_arith);
    }
}

/// A character outside ASCII is written as `&#N;`, where the digits `N`
/// read as its code point; an ASCII character is written as itself.
pub proof fn law_xml_char_names_code_point(c: char)
    ensures
        is_ascii_char(c) ==> xml_char(c) == seq![c],
        !is_ascii_char(c) ==> {
            let x = xml_char(c);
            &&& x.len() >= 3
            &&& x[0] == '&'
            &&& x[1] == '#'
            &&& x.last() == ';'
            &&& digits_value(x.subrange(2, x.len() - 1)) == c as u32 as int
            &&& forall|i: int| 2 <= i < x.len() - 1 ==> '0' <= #[trigger] x[i] <= '9'
        },
{
    if !is_ascii_char(c) {
        let d = decimal(c as u32 as nat);
        law_decimal_reads_back(c as u32 as nat);
        law_decimal_is_digits(c as u32 as nat);
        let x = xml_char(c);
        assert(x.subrange(2, x.len() - 1) =~= d);
        assert forall|i: int| 2 <= i < x.len() - 1 implies '0' <= #[trigger] x[i] <= '9' by {
            assert(x[i] == d[i - 2]);
        }
    }
}

/// The last segment is the longest suffix free of `sep`: it holds no `sep`,
/// it ends `s`, and it is all of `s` or stands right after a `sep`.
pub proof fn law_last_segment_longest(s: Seq<char>, sep: char)
    ensures
        !last_segment(s, sep).contains(sep),
        last_segment(s, sep).len() <= s.len(),
        s.skip(s.len() - last_segment(s, sep).len()) == last_segment(s, sep),
        last_segment(s, sep).len() == s.len() || s[s.len() - last_segment(s, sep).len() - 1] == sep,
    decreases s.len(),
{
    if s.len() == 0 {
        assert(s.skip(0) =~= s);
    } else if s.last() == sep {
        assert(s.skip(s.len() as int) =~= Seq::<char>::empty());
    } else {
        let t = s.drop_last();
        law_last_segment_longest(t, sep);
        let prev = last_segment(t, sep);
        let seg = last_segment(s, sep);
        assert(seg == prev.push(s.last()));
        assert(s.skip(s.len() - seg.len()) =~= t.skip(t.len() - prev.len()).push(s.last()));
        assert forall|i: int| 0 <= i < seg.len() implies seg[i] != sep by {
            if i < prev.len() {
                assert(seg[i] == prev[i]);
                assert(prev.contains(prev[i]));
            }
        }
        if prev.len() < t.len() {
            assert(s[s.len() - seg.len() - 1] == t[t.len() - prev.len() - 1]);
        }
    }
}

/// The signed numeral of `i` is a `-` followed by the numeral of `-i` when
/// `i` is negative, and otherwise a numeral without sign; either way its
/// digits read back as the magnitude of `i`.
pub proof fn law_signed_decimal_reads_back(i: int)
    ensures
        i < 0 ==> signed_decimal(i)[0] == '-' && digits_value(signed_decimal(i).skip(1)) == -i,
        i >= 0 ==> digits_value(signed_decimal(i)) == i && signed_decimal(i)[0] != '-',
{
    if i < 0 {
        law_decimal_reads_back((-i) as nat);
        assert(signed_decimal(i).skip(1) =~= decimal((-i) as nat));
    } else {
        law_decimal_reads_back(i as nat);
        law_decimal_is_digits(i as nat);
        assert('0' <= decimal(i as nat)[0] <= '9');
    }
}

} // verus!
