//! Reading line-oriented artifacts: splitting into lines and `|`-separated fields, trimming
//! white space, and reading unsigned integers.
use vstd::prelude::*;

use crate::lexer::is_whitespace;
use crate::text::{chars_of, decimal, push_char, push_str, to_owned, views};

verus! {

/// `s` cut at every `sep`; there is always at least one piece.
pub open spec fn split_on(s: Seq<char>, sep: char) -> Seq<Seq<char>>
    decreases s.len(),
{
    if s.len() == 0 {
        seq![Seq::empty()]
    } else {
        let init = split_on(s.drop_last(), sep);
        if s.last() == sep {
            init.push(Seq::empty())
        } else {
            init.update(init.len() - 1, init.last().push(s.last()))
        }
    }
}

/// A line without the carriage return of a `\r\n` ending.
pub open spec fn strip_cr(line: Seq<char>) -> Seq<char> {
    if line.len() > 0 && line.last() == '\r' {
        line.drop_last()
    } else {
        line
    }
}

/// The lines of `s`: ended by `\n` or `\r\n`, the last line ending optional.
pub open spec fn text_lines(s: Seq<char>) -> Seq<Seq<char>> {
    let pieces = split_on(s, '\n');
    pieces.drop_last().map_values(|l: Seq<char>| strip_cr(l)) + if pieces.last().len() > 0 {
        seq![pieces.last()]
    } else {
        Seq::empty()
    }
}

pub open spec fn trim_start(s: Seq<char>) -> Seq<char>
    decreases s.len(),
{
    if s.len() > 0 && is_whitespace(s[0]) {
        trim_start(s.drop_first())
    } else {
        s
    }
}

pub open spec fn trim_end(s: Seq<char>) -> Seq<char>
    decreases s.len(),
{
    if s.len() > 0 && is_whitespace(s.last()) {
        trim_end(s.drop_last())
    } else {
        s
    }
}

/// `s` without leading and trailing white space.
pub open spec fn trimmed(s: Seq<char>) -> Seq<char> {
    trim_end(trim_start(s))
}

/// Splits `s` at every `sep`.
pub fn split_at_char(s: &str, sep: char) -> (r: Vec<String>)
    ensures
        views(r@) == split_on(s@, sep),
{
    let chars = chars_of(s);
    let mut pieces: Vec<String> = Vec::new();
    let mut current = String::new();
    let mut i: usize = 0;
    while i < chars.len()
        invariant
            i <= chars@.len(),
            chars@ == s@,
            views(pieces@).push(current@) == split_on(chars@.subrange(0, i as int), sep),
        decreases chars.len() - i,
    {
        let c = chars[i];
        let ghost before = chars@.subrange(0, i as int);
        let ghost after = chars@.subrange(0, i + 1);
        assert(after.drop_last() =~= before);
        if c == sep {
            let done = current;
            pieces.push(done);
            current = String::new();
            assert(views(pieces@).push(current@) =~= split_on(after, sep));
        } else {
            let ghost old_views = views(pieces@);
            push_char(&mut current, c);
            assert(views(pieces@).push(current@) =~= split_on(after, sep));
        }
        i = i + 1;
    }
    assert(chars@.subrange(0, i as int) =~= s@);
    pieces.push(current);
    pieces
}

/// The lines of `s`, as `str::lines` gives them.
pub fn split_lines(s: &str) -> (r: Vec<String>)
    ensures
        views(r@) == text_lines(s@),
{
    let pieces = split_at_char(s, '\n');
    let ghost p = split_on(s@, '\n');
    assert(p.len() > 0) by {
        lemma_split_nonempty(s@, '\n');
    }
    let mut lines: Vec<String> = Vec::new();
    let mut i: usize = 0;
    assert(pieces@.len() > 0);
    while i < pieces.len() - 1
        invariant
            i + 1 <= pieces@.len(),
            views(pieces@) == p,
            lines@.len() == i,
            forall|k: int| 0 <= k < i ==> (#[trigger] lines@[k])@ == strip_cr(p[k]),
        decreases pieces.len() - i,
    {
        let piece = &pieces[i];
        let chars = chars_of(piece.as_str());
        let mut line = String::new();
        let n = chars.len();
        let keep = if n > 0 && chars[n - 1] == '\r' {
            n - 1
        } else {
            n
        };
        let mut j: usize = 0;
        while j < keep
            invariant
                j <= keep <= chars@.len(),
                line@ == chars@.subrange(0, j as int),
            decreases keep - j,
        {
            push_char(&mut line, chars[j]);
            assert(line@ =~= chars@.subrange(0, j + 1));
            j = j + 1;
        }
        assert(line@ =~= strip_cr(p[i as int]));
        lines.push(line);
        i = i + 1;
    }
    let last = &pieces[pieces.len() - 1];
    if chars_of(last.as_str()).len() > 0 {
        let mut copy = String::new();
        push_str(&mut copy, last.as_str());
        lines.push(copy);
    }
    proof {
        assert(p.last() == pieces@[pieces@.len() - 1]@);
    }
    assert(views(lines@) =~= text_lines(s@));
    lines
}

pub proof fn lemma_split_nonempty(s: Seq<char>, sep: char)
    ensures
        split_on(s, sep).len() > 0,
    decreases s.len(),
{
    if s.len() > 0 {
        lemma_split_nonempty(s.drop_last(), sep);
    }
}

fn is_whitespace_char(c: char) -> (r: bool)
    ensures
        r == is_whitespace(c),
{
    ('\t' <= c && c <= '\r') || c == ' ' || c == '\u{85}' || c == '\u{a0}' || c == '\u{1680}'
        || ('\u{2000}' <= c && c <= '\u{200a}') || c == '\u{2028}' || c == '\u{2029}'
        || c == '\u{202f}' || c == '\u{205f}' || c == '\u{3000}'
}

proof fn lemma_trim_start_skip(s: Seq<char>, k: int)
    requires
        0 <= k <= s.len(),
        forall|i: int| 0 <= i < k ==> is_whitespace(#[trigger] s[i]),
    ensures
        trim_start(s) == trim_start(s.subrange(k, s.len() as int)),
    decreases k,
{
    if k > 0 {
        assert(s.drop_first().subrange(k - 1, s.drop_first().len() as int) =~= s.subrange(k, s.len() as int));
        lemma_trim_start_skip(s.drop_first(), k - 1);
    } else {
        assert(s.subrange(0, s.len() as int) =~= s);
    }
}

proof fn lemma_trim_end_skip(s: Seq<char>, k: int)
    requires
        0 <= k <= s.len(),
        forall|i: int| k <= i < s.len() ==> is_whitespace(#[trigger] s[i]),
    ensures
        trim_end(s) == trim_end(s.subrange(0, k)),
    decreases s.len() - k,
{
    if k < s.len() {
        assert(s.drop_last().subrange(0, k) =~= s.subrange(0, k));
        lemma_trim_end_skip(s.drop_last(), k);
    } else {
        assert(s.subrange(0, k) =~= s);
    }
}

/// `s` without leading and trailing white space.
pub fn trim(s: &str) -> (r: String)
    ensures
        r@ == trimmed(s@),
{
    let chars = chars_of(s);
    let mut start: usize = 0;
    while start < chars.len() && is_whitespace_char(chars[start])
        invariant
            start <= chars@.len(),
            forall|i: int| 0 <= i < start ==> is_whitespace(#[trigger] chars@[i]),
        decreases chars.len() - start,
    {
        start = start + 1;
    }
    let mut end: usize = chars.len();
    while end > start && is_whitespace_char(chars[end - 1])
        invariant
            start <= end <= chars@.len(),
            forall|i: int| end <= i < chars@.len() ==> is_whitespace(#[trigger] chars@[i]),
        decreases end - start,
    {
        end = end - 1;
    }
    let mut out = String::new();
    let mut i: usize = start;
    while i < end
        invariant
            start <= i <= end <= chars@.len(),
            chars@ == s@,
            out@ == chars@.subrange(start as int, i as int),
        decreases end - i,
    {
        push_char(&mut out, chars[i]);
        assert(out@ =~= chars@.subrange(start as int, i + 1));
        i = i + 1;
    }
    proof {
        lemma_trim_start_skip(s@, start as int);
        let rest = s@.subrange(start as int, s@.len() as int);
        if start < s@.len() {
            assert(rest[0] == s@[start as int]);
        }
        assert(trim_start(rest) == rest);
        lemma_trim_end_skip(rest, end - start);
        assert(rest.subrange(0, end - start) =~= out@);
        let kept = out@;
        if kept.len() > 0 {
            assert(kept.last() == s@[end - 1]);
        }
        assert(trim_end(kept) == kept);
    }
    out
}

/// `s` without an optional leading `+`.
pub open spec fn unsigned_digits(s: Seq<char>) -> Seq<char> {
    if s.len() > 0 && s[0] == '+' {
        s.drop_first()
    } else {
        s
    }
}

/// The value of `s` read as a `usize` the way `str::parse` reads it: an optional `+` followed
/// by at least one decimal digit.
pub open spec fn unsigned_value(s: Seq<char>) -> Option<nat> {
    let digits = unsigned_digits(s);
    if digits.len() > 0 && forall|i: int| 0 <= i < digits.len() ==> '0' <= #[trigger] digits[i] <= '9' {
        Some(crate::lexer::digits_value(digits))
    } else {
        None
    }
}

/// Why `s` is no `usize`, in the words of `str::parse`.
pub open spec fn unsigned_error(s: Seq<char>) -> Seq<char> {
    let digits = unsigned_digits(s);
    if digits.len() == 0 {
        if s.len() == 0 {
            "cannot parse integer from empty string"@
        } else {
            "invalid digit found in string"@
        }
    } else if exists|i: int| 0 <= i < digits.len() && !('0' <= #[trigger] digits[i] <= '9') {
        "invalid digit found in string"@
    } else {
        "number too large to fit in target type"@
    }
}

/// Reads `s` as a `usize`.
pub fn parse_usize(s: &str) -> (r: Result<usize, String>)
    ensures
        r matches Ok(v) ==> unsigned_value(s@) == Some(v as nat),
        r is Ok <==> (unsigned_value(s@) matches Some(v) && v <= usize::MAX),
        r matches Err(msg) ==> msg@ == unsigned_error(s@),
{
    let chars = chars_of(s);
    let start: usize = if chars.len() > 0 && chars[0] == '+' {
        1
    } else {
        0
    };
    let ghost digits = unsigned_digits(s@);
    assert(digits =~= chars@.subrange(start as int, chars@.len() as int));
    if start == chars.len() {
        if chars.len() == 0 {
            return Err(to_owned("cannot parse integer from empty string"));
        }
        return Err(to_owned("invalid digit found in string"));
    }
    let mut i: usize = start;
    while i < chars.len()
        invariant
            start <= i <= chars@.len(),
            start < chars@.len(),
            chars@ == s@,
            digits == unsigned_digits(s@),
            digits == chars@.subrange(start as int, chars@.len() as int),
            forall|k: int| start <= k < i ==> '0' <= #[trigger] chars@[k] <= '9',
        decreases chars.len() - i,
    {
        if !('0' <= chars[i] && chars[i] <= '9') {
            assert(!('0' <= digits[i - start] <= '9'));
            return Err(to_owned("invalid digit found in string"));
        }
        i = i + 1;
    }
    assert(forall|k: int| 0 <= k < digits.len() ==> '0' <= #[trigger] digits[k] <= '9') by {
        assert forall|k: int| 0 <= k < digits.len() implies '0' <= #[trigger] digits[k] <= '9' by {
            assert(digits[k] == chars@[start + k]);
        }
    }
    let mut value: usize = 0;
    let mut j: usize = start;
    while j < chars.len()
        invariant
            start <= j <= chars@.len(),
            start < chars@.len(),
            chars@ == s@,
            digits == unsigned_digits(s@),
            forall|k: int| 0 <= k < digits.len() ==> '0' <= #[trigger] digits[k] <= '9',
            digits == chars@.subrange(start as int, chars@.len() as int),
            forall|k: int| start <= k < chars@.len() ==> '0' <= #[trigger] chars@[k] <= '9',
            value == crate::lexer::digits_value(chars@.subrange(start as int, j as int)),
        decreases chars.len() - j,
    {
        let d: usize = (chars[j] as u32 - '0' as u32) as usize;
        let ghost next = chars@.subrange(start as int, j + 1);
        assert(next.drop_last() =~= chars@.subrange(start as int, j as int));
        assert(digits.subrange(0, j - start + 1) =~= next);
        match value.checked_mul(10) {
            Some(scaled) => match scaled.checked_add(d) {
                Some(v) => {
                    value = v;
                },
                None => {
                    proof {
                        lemma_digits_value_grows(digits, j - start + 1);
                    }
                    return Err(to_owned("number too large to fit in target type"));
                },
            },
            None => {
                proof {
                    lemma_digits_value_grows(digits, j - start + 1);
                }
                return Err(to_owned("number too large to fit in target type"));
            },
        }
        j = j + 1;
    }
    assert(chars@.subrange(start as int, j as int) =~= digits);
    Ok(value)
}

/// A longer run of digits never has a smaller value.
proof fn lemma_digits_value_grows(digits: Seq<char>, n: int)
    requires
        0 <= n <= digits.len(),
        forall|k: int| 0 <= k < digits.len() ==> '0' <= #[trigger] digits[k] <= '9',
    ensures
        crate::lexer::digits_value(digits.subrange(0, n)) <= crate::lexer::digits_value(digits),
    decreases digits.len() - n,
{
    if n < digits.len() {
        lemma_digits_value_grows(digits, n + 1);
        let longer = digits.subrange(0, n + 1);
        assert(longer.drop_last() =~= digits.subrange(0, n));
    } else {
        assert(digits.subrange(0, n) =~= digits);
    }
}


// ----- texts built from lines and fields ------------------------------------------------------

/// A text without `sep` is a single piece.
pub proof fn lemma_split_whole(s: Seq<char>, sep: char)
    requires
        forall|i: int| 0 <= i < s.len() ==> #[trigger] s[i] != sep,
    ensures
        split_on(s, sep) == seq![s],
    decreases s.len(),
{
    if s.len() > 0 {
        let init = s.drop_last();
        assert forall|i: int| 0 <= i < init.len() implies #[trigger] init[i] != sep by {
            assert(init[i] == s[i]);
        }
        lemma_split_whole(init, sep);
        assert(s.last() == s[s.len() - 1]);
        assert(init.push(s.last()) =~= s);
        assert(split_on(s, sep) =~= seq![s]);
    } else {
        assert(s =~= Seq::<char>::empty());
    }
}

/// Cutting `a`, a separator and `b` gives the pieces of `a` followed by the pieces of `b`.
pub proof fn lemma_split_join(a: Seq<char>, b: Seq<char>, sep: char)
    ensures
        split_on(a + seq![sep] + b, sep) == split_on(a, sep) + split_on(b, sep),
    decreases b.len(),
{
    let whole = a + seq![sep] + b;
    if b.len() == 0 {
        assert(whole.drop_last() =~= a);
        assert(whole.last() == sep);
        assert(split_on(b, sep) =~= seq![Seq::<char>::empty()]);
        assert(split_on(whole, sep) =~= split_on(a, sep) + split_on(b, sep));
    } else {
        let b0 = b.drop_last();
        lemma_split_join(a, b0, sep);
        assert(whole.drop_last() =~= a + seq![sep] + b0);
        assert(whole.last() == b.last());
        lemma_split_nonempty(b0, sep);
        assert(split_on(whole, sep) =~= split_on(a, sep) + split_on(b, sep));
    }
}

/// Lines joined, each ended by a line feed.
pub open spec fn lines_text(lines: Seq<Seq<char>>) -> Seq<char>
    decreases lines.len(),
{
    if lines.len() == 0 {
        Seq::empty()
    } else {
        lines[0] + seq!['\n'] + lines_text(lines.drop_first())
    }
}

pub proof fn lemma_lines_text_concat(a: Seq<Seq<char>>, b: Seq<Seq<char>>)
    ensures
        lines_text(a + b) == lines_text(a) + lines_text(b),
    decreases a.len(),
{
    if a.len() > 0 {
        lemma_lines_text_concat(a.drop_first(), b);
        assert((a + b).drop_first() =~= a.drop_first() + b);
        assert((a + b)[0] == a[0]);
        assert(lines_text(a + b) =~= lines_text(a) + lines_text(b));
    } else {
        assert(a + b =~= b);
        assert(lines_text(a) + lines_text(b) =~= lines_text(b));
    }
}

pub open spec fn has_no(s: Seq<char>, c: char) -> bool {
    forall|i: int| 0 <= i < s.len() ==> #[trigger] s[i] != c
}

proof fn lemma_lines_split(lines: Seq<Seq<char>>, rest: Seq<char>)
    requires
        forall|k: int| 0 <= k < lines.len() ==> has_no(#[trigger] lines[k], '\n'),
    ensures
        split_on(lines_text(lines) + rest, '\n') == lines + split_on(rest, '\n'),
    decreases lines.len(),
{
    if lines.len() > 0 {
        let tail = lines.drop_first();
        assert forall|k: int| 0 <= k < tail.len() implies has_no(#[trigger] tail[k], '\n') by {
            assert(tail[k] == lines[k + 1]);
        }
        lemma_lines_split(tail, rest);
        assert(has_no(lines[0], '\n'));
        lemma_split_whole(lines[0], '\n');
        lemma_split_join(lines[0], lines_text(tail) + rest, '\n');
        assert(lines_text(lines) + rest =~= lines[0] + seq!['\n'] + (lines_text(tail) + rest));
        assert(lines + split_on(rest, '\n') =~= seq![lines[0]] + (tail + split_on(rest, '\n')));
    } else {
        assert(lines_text(lines) + rest =~= rest);
        assert(lines + split_on(rest, '\n') =~= split_on(rest, '\n'));
    }
}

/// Lines without line feeds, none ending in a carriage return, read back from their text.
pub proof fn lemma_text_lines_of(lines: Seq<Seq<char>>)
    requires
        forall|k: int| 0 <= k < lines.len() ==> has_no(#[trigger] lines[k], '\n'),
        forall|k: int| 0 <= k < lines.len() ==> strip_cr(#[trigger] lines[k]) == lines[k],
    ensures
        text_lines(lines_text(lines)) == lines,
{
    lemma_lines_split(lines, Seq::empty());
    assert(lines_text(lines) + Seq::<char>::empty() =~= lines_text(lines));
    let pieces = split_on(lines_text(lines), '\n');
    assert(split_on(Seq::<char>::empty(), '\n') =~= seq![Seq::<char>::empty()]);
    assert(pieces =~= lines.push(Seq::empty()));
    assert(pieces.drop_last() =~= lines);
    assert(pieces.drop_last().map_values(|l: Seq<char>| strip_cr(l)) =~= lines);
    assert(text_lines(lines_text(lines)) =~= lines);
}

/// A text that starts with a character other than white space keeps it when trimmed.
pub proof fn lemma_trimmed_nonempty(s: Seq<char>)
    requires
        s.len() > 0,
        !is_whitespace(s[0]),
    ensures
        trimmed(s).len() > 0,
        trim_start(s) == s,
{
    lemma_trim_end_keeps_first(s);
}

proof fn lemma_trim_end_keeps_first(s: Seq<char>)
    requires
        s.len() > 0,
        !is_whitespace(s[0]),
    ensures
        trim_end(s).len() > 0,
    decreases s.len(),
{
    if s.len() > 1 && is_whitespace(s.last()) {
        assert(s.drop_last()[0] == s[0]);
        lemma_trim_end_keeps_first(s.drop_last());
    }
}

/// Decimal renderings are digit runs that read back as the number.
pub proof fn lemma_decimal_reads_back(n: nat)
    ensures
        decimal(n).len() > 0,
        forall|i: int| 0 <= i < decimal(n).len() ==> '0' <= #[trigger] decimal(n)[i] <= '9',
        crate::lexer::digits_value(decimal(n)) == n,
        crate::field::magnitude_value(decimal(n)) == n,
        unsigned_value(decimal(n)) == Some(n),
        crate::field::parsed_value(decimal(n)) == Some(crate::field::reduce(n as int)),
    decreases n,
{
    let d = decimal(n);
    let last = (n % 10) as nat;
    assert(crate::text::digit_char(last) as nat == 48 + last);
    if n >= 10 {
        lemma_decimal_reads_back(n / 10);
        let init = decimal(n / 10);
        assert(d.drop_last() =~= init);
        assert(d.last() == crate::text::digit_char(n % 10));
        assert forall|i: int| 0 <= i < d.len() implies '0' <= #[trigger] d[i] <= '9' by {
            if i < init.len() {
                assert(d[i] == init[i]);
            }
        }
        assert(n == (n / 10) * 10 + n % 10) by (nonlinear_arith);
        assert(crate::lexer::digits_value(d) == crate::lexer::digits_value(init) * 10 + last);
        assert(crate::field::magnitude_value(d) == crate::field::magnitude_value(init) * 10 + last);
    } else {
        assert(d.drop_last() =~= Seq::<char>::empty());
        assert(last == n);
        assert(d.last() == crate::text::digit_char(last));
        assert(crate::lexer::digits_value(Seq::<char>::empty()) == 0);
        assert(crate::field::magnitude_value(Seq::<char>::empty()) == 0);
        assert(crate::lexer::digits_value(d) == last);
        assert(crate::field::magnitude_value(d) == last);
    }
    assert(crate::field::valid_magnitude(d));
    assert(unsigned_digits(d) == d);
}

} // verus!
