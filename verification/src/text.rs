//! Text as sequences of characters: digits, lines, pieces and joins.

use vstd::prelude::*;

verus! {

/// `String::push`: appends one character to the end of the text.
pub assume_specification[ String::push ](s: &mut String, c: char)
    ensures
        final(s)@ == old(s)@.push(c),
;

/// The characters of `s`, in order.
pub fn chars_of(s: &str) -> (r: Vec<char>)
    ensures
        r@ == s@,
{
    let mut out: Vec<char> = Vec::new();
    for c in it: s.chars()
        invariant
            it.seq() == s@,
            out@ == it.seq().take(it.index() as int),
    {
        out.push(c);
    }
    out
}

/// The text that `chars[from..to]` spells.
pub fn text_between(chars: &Vec<char>, from: usize, to: usize) -> (r: String)
    requires
        from <= to <= chars@.len(),
    ensures
        r@ == chars@.subrange(from as int, to as int),
{
    let mut out = String::new();
    let mut i: usize = from;
    while i < to
        invariant
            from <= i <= to <= chars@.len(),
            out@ == chars@.subrange(from as int, i as int),
        decreases to - i,
    {
        out.push(chars[i]);
        i = i + 1;
    }
    out
}

/// Whether `a` and `b` are the same text.
pub fn same_text(a: &str, b: &str) -> (r: bool)
    ensures
        r == (a@ == b@),
{
    let x = chars_of(a);
    let y = chars_of(b);
    if x.len() != y.len() {
        return false;
    }
    let mut i: usize = 0;
    while i < x.len()
        invariant
            i <= x@.len() == y@.len(),
            x@ == a@,
            y@ == b@,
            forall|k: int| 0 <= k < i ==> x@[k] == y@[k],
        decreases x@.len() - i,
    {
        if x[i] != y[i] {
            assert(a@[i as int] != b@[i as int]);
            return false;
        }
        i = i + 1;
    }
    assert(a@ =~= b@);
    true
}

/// The digit character of `d`.
pub open spec fn digit(d: nat) -> char {
    (48 + d) as char
}

/// `n` in decimal, without leading zeros.
pub open spec fn decimal(n: nat) -> Seq<char>
    decreases n,
{
    if n < 10 {
        seq![digit(n)]
    } else {
        decimal(n / 10).push(digit(n % 10))
    }
}

/// `n` in decimal.
pub fn decimal_text(n: u64) -> (r: String)
    ensures
        r@ == decimal(n as nat),
    decreases n,
{
    let d: u8 = (n % 10) as u8;
    let c: char = (48 + d) as char;
    if n < 10 {
        let mut out = String::new();
        out.push(c);
        assert(out@ =~= decimal(n as nat));
        out
    } else {
        let mut out = decimal_text(n / 10);
        out.push(c);
        out
    }
}

/// The value that a run of decimal digits denotes.
pub open spec fn decimal_value(s: Seq<char>) -> nat
    decreases s.len(),
{
    if s.len() == 0 {
        0
    } else {
        decimal_value(s.drop_last()) * 10 + (s.last() as nat - 48) as nat
    }
}

/// Reading a number back from its decimal digits gives the number, so two
/// different numbers never print alike.
pub proof fn law_decimal_reads_back(n: nat)
    ensures
        decimal_value(decimal(n)) == n,
        decimal(n).len() > 0,
        forall|i: int| 0 <= i < decimal(n).len() ==> '0' <= #[trigger] decimal(n)[i] <= '9',
    decreases n,
{
    if n < 10 {
        let s = decimal(n);
        assert(s.drop_last() =~= Seq::<char>::empty());
        assert(decimal_value(s.drop_last()) == 0);
    } else {
        law_decimal_reads_back(n / 10);
        let s = decimal(n);
        assert(s.drop_last() =~= decimal(n / 10));
        assert(s.last() == digit(n % 10));
    }
}

/// The place of the first `c` in `s`, or the length of `s` where there is none.
pub open spec fn first_index(s: Seq<char>, c: char) -> int
    decreases s.len(),
{
    if s.len() == 0 {
        0
    } else if s[0] == c {
        0
    } else {
        1 + first_index(s.drop_first(), c)
    }
}

/// `first_index` is the only place at which `c` stands with none before it.
pub proof fn lemma_first_index(s: Seq<char>, c: char, k: int)
    requires
        0 <= k <= s.len(),
        forall|i: int| 0 <= i < k ==> s[i] != c,
        k < s.len() ==> s[k] == c,
    ensures
        first_index(s, c) == k,
    decreases s.len(),
{
    if k > 0 {
        assert forall|i: int| 0 <= i < k - 1 implies s.drop_first()[i] != c by {
            assert(s.drop_first()[i] == s[i + 1]);
        }
        lemma_first_index(s.drop_first(), c, k - 1);
    }
}

/// What `first_index` says of the text before it and at it.
pub proof fn lemma_first_index_bounds(s: Seq<char>, c: char)
    ensures
        0 <= first_index(s, c) <= s.len(),
        first_index(s, c) < s.len() ==> s[first_index(s, c)] == c,
        forall|i: int| 0 <= i < first_index(s, c) ==> s[i] != c,
    decreases s.len(),
{
    if s.len() > 0 && s[0] != c {
        lemma_first_index_bounds(s.drop_first(), c);
        assert forall|i: int| 0 <= i < first_index(s, c) implies s[i] != c by {
            if i > 0 {
                assert(s[i] == s.drop_first()[i - 1]);
            }
        }
    }
}

/// The pieces of `s` between the occurrences of `sep`: one piece more than
/// there are separators, empty ones included.
pub open spec fn pieces(s: Seq<char>, sep: char) -> Seq<Seq<char>>
    decreases s.len(),
{
    let k = first_index(s, sep);
    if 0 <= k < s.len() {
        seq![s.take(k)] + pieces(s.skip(k + 1), sep)
    } else {
        seq![s]
    }
}

/// The views of a list of texts.
pub open spec fn views(list: Seq<String>) -> Seq<Seq<char>> {
    Seq::new(list.len(), |i: int| list[i]@)
}

/// The pieces of `s` between the occurrences of `sep`.
pub fn split_at_char(s: &str, sep: char) -> (r: Vec<String>)
    ensures
        views(r@) == pieces(s@, sep),
{
    let chars = chars_of(s);
    let mut out: Vec<String> = Vec::new();
    let mut start: usize = 0;
    let mut i: usize = 0;
    assert(s@.skip(0) =~= s@);
    assert(views(out@) + pieces(s@.skip(0), sep) =~= pieces(s@, sep));
    while i < chars.len()
        invariant
            chars@ == s@,
            start <= i <= chars@.len(),
            forall|k: int| start <= k < i ==> chars@[k] != sep,
            views(out@) + pieces(s@.skip(start as int), sep) == pieces(s@, sep),
        decreases chars@.len() - i,
    {
        if chars[i] == sep {
            let piece = text_between(&chars, start, i);
            proof {
                let rest = s@.skip(start as int);
                lemma_first_index(rest, sep, i - start);
                assert(rest.take(i - start) =~= piece@);
                assert(rest.skip(i - start + 1) =~= s@.skip(i + 1));
                assert(views(out@.push(piece)) =~= views(out@).push(piece@));
                assert(views(out@) + (seq![piece@] + pieces(s@.skip(i + 1), sep)) =~= views(out@).push(piece@) + pieces(s@.skip(i + 1), sep));
            }
            out.push(piece);
            start = i + 1;
        }
        i = i + 1;
    }
    let piece = text_between(&chars, start, chars.len());
    proof {
        let rest = s@.skip(start as int);
        lemma_first_index(rest, sep, rest.len() as int);
        assert(rest =~= piece@);
        assert(views(out@.push(piece)) =~= views(out@).push(piece@));
        assert(pieces(rest, sep) == seq![rest]);
        assert(views(out@) + seq![rest] =~= views(out@).push(piece@));
    }
    out.push(piece);
    out
}

/// Adds a text to the end of a list.
pub fn push_text(list: &mut Vec<String>, s: &str)
    ensures
        views(final(list)@) == views(old(list)@).push(s@),
{
    let ghost before = list@;
    list.push(s.to_owned());
    assert(views(list@) =~= views(before).push(s@));
}

/// A copy of a list of texts.
pub fn copy_texts(list: &Vec<String>) -> (r: Vec<String>)
    ensures
        r@ == list@,
{
    let mut out: Vec<String> = Vec::new();
    let mut i: usize = 0;
    while i < list.len()
        invariant
            i <= list@.len(),
            out@ == list@.take(i as int),
        decreases list@.len() - i,
    {
        out.push(list[i].clone());
        i = i + 1;
        assert(out@ =~= list@.take(i as int));
    }
    assert(out@ =~= list@);
    out
}

/// How a text is shown between quotes, with what would be unclear there escaped.
pub uninterp spec fn quoted_text(s: Seq<char>) -> Seq<char>;

/// The `Debug` form of a text: between double quotes, with quotes, backslashes
/// and what is not printable escaped. It is a function of the text.
#[verifier::external_body]
pub(crate) fn quote(s: &str) -> (r: String)
    ensures
        r@ == quoted_text(s@),
{
    format!("{s:?}")
}

/// `s` without one carriage return at its end.
pub open spec fn without_return(s: Seq<char>) -> Seq<char> {
    if s.len() > 0 && s.last() == '\r' {
        s.drop_last()
    } else {
        s
    }
}

/// The lines of `s`: each ends in a line feed, with or without a carriage
/// return before it, or at the end of `s`. The ending is not part of the line,
/// and text that ends in a line feed has no empty line after it.
pub open spec fn lines(s: Seq<char>) -> Seq<Seq<char>>
    decreases s.len(),
{
    let k = first_index(s, '\n');
    if s.len() == 0 {
        Seq::empty()
    } else if 0 <= k < s.len() {
        seq![without_return(s.take(k))] + lines(s.skip(k + 1))
    } else {
        seq![s]
    }
}

/// The lines of `s`.
pub fn split_lines(s: &str) -> (r: Vec<String>)
    ensures
        views(r@) == lines(s@),
{
    let chars = chars_of(s);
    let mut out: Vec<String> = Vec::new();
    let mut start: usize = 0;
    let mut i: usize = 0;
    assert(s@.skip(0) =~= s@);
    assert(views(out@) + lines(s@.skip(0)) =~= lines(s@));
    while i < chars.len()
        invariant
            chars@ == s@,
            start <= i <= chars@.len(),
            forall|k: int| start <= k < i ==> chars@[k] != '\n',
            views(out@) + lines(s@.skip(start as int)) == lines(s@),
        decreases chars@.len() - i,
    {
        if chars[i] == '\n' {
            let end: usize = if i > start && chars[i - 1] == '\r' {
                i - 1
            } else {
                i
            };
            let line = text_between(&chars, start, end);
            proof {
                let rest = s@.skip(start as int);
                lemma_first_index(rest, '\n', i - start);
                if end < i {
                    assert(rest.take(i - start).last() == '\r');
                    assert(rest.take(i - start).drop_last() =~= line@);
                } else {
                    assert(rest.take(i - start) =~= line@);
                    if i > start {
                        assert(rest.take(i - start).last() == chars@[i - 1]);
                    }
                }
                assert(without_return(rest.take(i - start)) == line@);
                assert(rest.skip(i - start + 1) =~= s@.skip(i + 1));
                assert(views(out@.push(line)) =~= views(out@).push(line@));
                assert(views(out@) + (seq![line@] + lines(s@.skip(i + 1))) =~= views(out@).push(line@) + lines(s@.skip(i + 1)));
            }
            out.push(line);
            start = i + 1;
        }
        i = i + 1;
    }
    if start < chars.len() {
        let line = text_between(&chars, start, chars.len());
        proof {
            let rest = s@.skip(start as int);
            lemma_first_index(rest, '\n', rest.len() as int);
            assert(rest =~= line@);
            assert(views(out@.push(line)) =~= views(out@).push(line@));
            assert(views(out@) + seq![rest] =~= views(out@).push(line@));
        }
        out.push(line);
    } else {
        assert(s@.skip(start as int) =~= Seq::<char>::empty());
        assert(views(out@) =~= lines(s@));
    }
    out
}

/// `list` in one text, with `sep` between neighbours.
pub open spec fn joined(list: Seq<Seq<char>>, sep: Seq<char>) -> Seq<char>
    decreases list.len(),
{
    if list.len() == 0 {
        Seq::empty()
    } else if list.len() == 1 {
        list[0]
    } else {
        joined(list.drop_last(), sep) + sep + list.last()
    }
}

/// `list[from..to]` in one text, with `sep` between neighbours.
pub fn join_between(list: &Vec<String>, from: usize, to: usize, sep: &str) -> (r: String)
    requires
        from <= to <= list@.len(),
    ensures
        r@ == joined(views(list@).subrange(from as int, to as int), sep@),
{
    let mut out = String::new();
    let mut i: usize = from;
    while i < to
        invariant
            from <= i <= to <= list@.len(),
            out@ == joined(views(list@).subrange(from as int, i as int), sep@),
        decreases to - i,
    {
        proof {
            let next = views(list@).subrange(from as int, i + 1);
            assert(next.drop_last() =~= views(list@).subrange(from as int, i as int));
            assert(next.last() == list@[i as int]@);
            if i == from {
                assert(next[0] == list@[i as int]@);
                assert(out@ =~= Seq::<char>::empty());
            }
        }
        if i > from {
            out.append(sep);
        }
        out.append(list[i].as_str());
        i = i + 1;
        assert(out@ =~= joined(views(list@).subrange(from as int, i as int), sep@));
    }
    out
}

/// `s` with every `from` in it replaced by `to`.
pub open spec fn replaced(s: Seq<char>, from: char, to: char) -> Seq<char> {
    Seq::new(
        s.len(),
        |i: int|
            if s[i] == from {
                to
            } else {
                s[i]
            },
    )
}

/// `s` with every `from` in it replaced by `to`.
pub fn replace_char(s: &str, from: char, to: char) -> (r: String)
    ensures
        r@ == replaced(s@, from, to),
{
    let chars = chars_of(s);
    let mut out = String::new();
    let mut i: usize = 0;
    while i < chars.len()
        invariant
            chars@ == s@,
            i <= chars@.len(),
            out@ == replaced(s@, from, to).take(i as int),
        decreases chars@.len() - i,
    {
        if chars[i] == from {
            out.push(to);
        } else {
            out.push(chars[i]);
        }
        i = i + 1;
        assert(out@ =~= replaced(s@, from, to).take(i as int));
    }
    assert(out@ =~= replaced(s@, from, to));
    out
}

/// `s` without the run of `c` at its end.
pub open spec fn trimmed_end(s: Seq<char>, c: char) -> Seq<char>
    decreases s.len(),
{
    if s.len() > 0 && s.last() == c {
        trimmed_end(s.drop_last(), c)
    } else {
        s
    }
}

/// `s` without the run of `c` at its end.
pub fn trim_end_char(s: &str, c: char) -> (r: String)
    ensures
        r@ == trimmed_end(s@, c),
{
    let chars = chars_of(s);
    let mut end: usize = chars.len();
    assert(s@.take(end as int) =~= s@);
    while end > 0 && chars[end - 1] == c
        invariant
            chars@ == s@,
            end <= chars@.len(),
            trimmed_end(s@.take(end as int), c) == trimmed_end(s@, c),
        decreases end,
    {
        assert(s@.take(end as int).drop_last() =~= s@.take(end - 1));
        end = end - 1;
    }
    let out = text_between(&chars, 0, end);
    assert(out@ =~= s@.take(end as int));
    out
}

/// Whether `s` begins with `prefix`.
pub fn begins_with(s: &str, prefix: &str) -> (r: bool)
    ensures
        r == prefix@.is_prefix_of(s@),
{
    let x = chars_of(s);
    let p = chars_of(prefix);
    if p.len() > x.len() {
        return false;
    }
    let mut i: usize = 0;
    while i < p.len()
        invariant
            i <= p@.len() <= x@.len(),
            x@ == s@,
            p@ == prefix@,
            forall|k: int| 0 <= k < i ==> p@[k] == x@[k],
        decreases p@.len() - i,
    {
        if p[i] != x[i] {
            assert(prefix@[i as int] != s@.subrange(0, prefix@.len() as int)[i as int]);
            return false;
        }
        i = i + 1;
    }
    assert(prefix@ =~= s@.subrange(0, prefix@.len() as int));
    true
}

/// The characters with the Unicode property `White_Space`.
pub open spec fn white_space(c: char) -> bool {
    ||| '\u{9}' <= c <= '\u{d}'
    ||| c == '\u{20}'
    ||| c == '\u{85}'
    ||| c == '\u{a0}'
    ||| c == '\u{1680}'
    ||| '\u{2000}' <= c <= '\u{200a}'
    ||| c == '\u{2028}'
    ||| c == '\u{2029}'
    ||| c == '\u{202f}'
    ||| c == '\u{205f}'
    ||| c == '\u{3000}'
}

/// Whether `c` is white space.
pub fn is_white_space(c: char) -> (r: bool)
    ensures
        r == white_space(c),
{
    ('\u{9}' <= c && c <= '\u{d}') || c == '\u{20}' || c == '\u{85}' || c == '\u{a0}' || c == '\u{1680}'
        || ('\u{2000}' <= c && c <= '\u{200a}') || c == '\u{2028}' || c == '\u{2029}' || c == '\u{202f}'
        || c == '\u{205f}' || c == '\u{3000}'
}

/// Whether `s` holds nothing but white space.
pub open spec fn blank(s: Seq<char>) -> bool {
    forall|i: int| 0 <= i < s.len() ==> white_space(#[trigger] s[i])
}

/// Whether `s` holds nothing but white space.
pub fn is_blank(s: &str) -> (r: bool)
    ensures
        r == blank(s@),
{
    let chars = chars_of(s);
    let mut i: usize = 0;
    while i < chars.len()
        invariant
            chars@ == s@,
            i <= chars@.len(),
            forall|k: int| 0 <= k < i ==> white_space(#[trigger] chars@[k]),
        decreases chars@.len() - i,
    {
        if !is_white_space(chars[i]) {
            assert(!white_space(s@[i as int]));
            return false;
        }
        i = i + 1;
    }
    true
}

/// The first `limit` characters of `s`, or all of `s` where it is shorter.
pub fn take_chars(s: &str, limit: usize) -> (r: String)
    ensures
        r@ == (if s@.len() <= limit {
            s@
        } else {
            s@.take(limit as int)
        }),
{
    let chars = chars_of(s);
    let end: usize = if chars.len() <= limit {
        chars.len()
    } else {
        limit
    };
    let out = text_between(&chars, 0, end);
    assert(out@ =~= s@.take(end as int));
    assert(s@.take(s@.len() as int) =~= s@);
    out
}

/// A number below ten is one digit, and ten times a number plus a digit is the
/// number followed by that digit.
pub proof fn law_decimal_is_written_digit_by_digit(n: nat, d: nat)
    requires
        d < 10,
    ensures
        decimal(d) == seq![(48 + d) as char],
        n > 0 ==> decimal(10 * n + d) == decimal(n).push((48 + d) as char),
{
    if n > 0 {
        assert((10 * n + d) / 10 == n && (10 * n + d) % 10 == d);
    }
}

/// What is joined of two lists is what is joined of each, with the separator
/// between them. One text alone is joined as it is, and no text as nothing.
pub proof fn law_joined_of_parts(a: Seq<Seq<char>>, b: Seq<Seq<char>>, sep: Seq<char>)
    ensures
        a.len() == 0 ==> joined(a, sep).len() == 0,
        a.len() == 1 ==> joined(a, sep) == a[0],
        a.len() > 0 && b.len() > 0 ==> joined(a + b, sep) == joined(a, sep) + sep + joined(b, sep),
    decreases b.len(),
{
    if a.len() > 0 && b.len() > 0 {
        let all = a + b;
        assert(all.drop_last() =~= a + b.drop_last());
        assert(all.last() == b.last());
        if b.len() == 1 {
            assert(a + b.drop_last() =~= a);
            assert(joined(all, sep) =~= joined(a, sep) + sep + joined(b, sep));
        } else {
            law_joined_of_parts(a, b.drop_last(), sep);
            assert(joined(all, sep) =~= joined(a, sep) + sep + joined(b, sep));
        }
    }
}

/// A text without the separator is one piece. What stands before the first
/// separator is the first piece, and the pieces of what follows it are the others.
pub proof fn law_pieces_of_parts(a: Seq<char>, b: Seq<char>, sep: char)
    requires
        !a.contains(sep),
    ensures
        pieces(a, sep) == seq![a],
        pieces(a + seq![sep] + b, sep) == seq![a] + pieces(b, sep),
{
    assert forall|i: int| 0 <= i < a.len() implies a[i] != sep by {
        assert(a.contains(a[i]));
    }
    lemma_first_index(a, sep, a.len() as int);
    let s = a + seq![sep] + b;
    lemma_first_index(s, sep, a.len() as int);
    assert(s.take(a.len() as int) =~= a);
    assert(s.skip(a.len() as int + 1) =~= b);
}

/// The pieces of joined texts are these texts, if none of them holds the
/// separator.
pub proof fn law_pieces_of_joined(list: Seq<Seq<char>>, sep: char)
    requires
        list.len() > 0,
        forall|i: int| 0 <= i < list.len() ==> !(#[trigger] list[i]).contains(sep),
    ensures
        pieces(joined(list, seq![sep]), sep) == list,
    decreases list.len(),
{
    let first = list[0];
    let rest = list.drop_first();
    if list.len() == 1 {
        law_pieces_of_parts(first, Seq::empty(), sep);
        assert(list =~= seq![first]);
    } else {
        assert(list =~= seq![first] + rest);
        law_joined_of_parts(seq![first], rest, seq![sep]);
        law_pieces_of_parts(first, joined(rest, seq![sep]), sep);
        assert forall|i: int| 0 <= i < rest.len() implies !(#[trigger] rest[i]).contains(sep) by {
            assert(rest[i] == list[i + 1]);
        }
        law_pieces_of_joined(rest, sep);
    }
}

/// The pieces of a text, joined with the separator, are the text, and none of them
/// holds the separator.
pub proof fn law_joined_pieces_are_the_text(s: Seq<char>, sep: char)
    ensures
        pieces(s, sep).len() > 0,
        joined(pieces(s, sep), seq![sep]) == s,
        forall|i: int| 0 <= i < pieces(s, sep).len() ==> !(#[trigger] pieces(s, sep)[i]).contains(sep),
    decreases s.len(),
{
    let k = first_index(s, sep);
    lemma_first_index_bounds(s, sep);
    if k < s.len() {
        let first = s.take(k);
        let rest = s.skip(k + 1);
        law_joined_pieces_are_the_text(rest, sep);
        law_joined_of_parts(seq![first], pieces(rest, sep), seq![sep]);
        assert(s =~= first + seq![sep] + rest);
        let all = pieces(s, sep);
        assert forall|i: int| 0 <= i < all.len() implies !(#[trigger] all[i]).contains(sep) by {
            if i == 0 {
                assert(forall|m: int| 0 <= m < first.len() ==> first[m] == s[m]);
            } else {
                assert(all[i] == pieces(rest, sep)[i - 1]);
            }
        }
    }
}

/// A text without line feeds is one line, unless it is empty. A line ends at its
/// line feed, and a carriage return right before that is no part of it.
pub proof fn law_lines_of_parts(a: Seq<char>, b: Seq<char>)
    requires
        !a.contains('\n'),
    ensures
        lines(Seq::<char>::empty()) == Seq::<Seq<char>>::empty(),
        a.len() > 0 ==> lines(a) == seq![a],
        a.len() == 0 || a.last() != '\r' ==> lines(a + seq!['\n'] + b) == seq![a] + lines(b),
        lines(a + seq!['\r', '\n'] + b) == seq![a] + lines(b),
{
    assert forall|i: int| 0 <= i < a.len() implies a[i] != '\n' by {
        assert(a.contains(a[i]));
    }
    lemma_first_index(a, '\n', a.len() as int);
    let plain = a + seq!['\n'] + b;
    lemma_first_index(plain, '\n', a.len() as int);
    assert(plain.take(a.len() as int) =~= a);
    assert(plain.skip(a.len() as int + 1) =~= b);
    let both = a + seq!['\r', '\n'] + b;
    lemma_first_index(both, '\n', a.len() as int + 1);
    assert(both.take(a.len() as int + 1) =~= a.push('\r'));
    assert(a.push('\r').drop_last() =~= a);
    assert(both.skip(a.len() as int + 2) =~= b);
}

/// No line holds a line feed.
pub proof fn law_no_line_holds_a_line_feed(s: Seq<char>)
    ensures
        forall|i: int| 0 <= i < lines(s).len() ==> !(#[trigger] lines(s)[i]).contains('\n'),
    decreases s.len(),
{
    let k = first_index(s, '\n');
    lemma_first_index_bounds(s, '\n');
    if s.len() > 0 && k < s.len() {
        law_no_line_holds_a_line_feed(s.skip(k + 1));
        let all = lines(s);
        assert forall|i: int| 0 <= i < all.len() implies !(#[trigger] all[i]).contains('\n') by {
            if i == 0 {
                assert(forall|m: int| 0 <= m < all[0].len() ==> all[0][m] == s[m]);
            } else {
                assert(all[i] == lines(s.skip(k + 1))[i - 1]);
            }
        }
    }
}

/// A run of a character at the end of a text is trimmed, however long it is, and
/// nothing else.
pub proof fn law_only_the_run_at_the_end_is_trimmed(s: Seq<char>, c: char, count: nat)
    requires
        s.len() == 0 || s.last() != c,
    ensures
        trimmed_end(s + Seq::new(count, |i: int| c), c) == s,
    decreases count,
{
    let whole = s + Seq::new(count, |i: int| c);
    if count == 0 {
        assert(whole =~= s);
    } else {
        assert(whole.last() == c);
        assert(whole.drop_last() =~= s + Seq::new((count - 1) as nat, |i: int| c));
        law_only_the_run_at_the_end_is_trimmed(s, c, (count - 1) as nat);
    }
}

/// Replacing one character by another changes nothing else: every character stays
/// at its place, and only those that are the one become the other.
pub proof fn law_only_one_character_is_replaced(s: Seq<char>, from: char, to: char)
    ensures
        replaced(s, from, to).len() == s.len(),
        forall|i: int| 0 <= i < s.len() && s[i] == from ==> #[trigger] replaced(s, from, to)[i] == to,
        forall|i: int| 0 <= i < s.len() && s[i] != from ==> #[trigger] replaced(s, from, to)[i] == s[i],
{
}

/// Spaces, tabs and line ends are white space; letters, digits, signs and whatever
/// else is printed in ASCII is not.
pub proof fn law_white_space_in_ascii(c: char)
    requires
        c <= '\u{7f}',
    ensures
        white_space(c) <==> c == ' ' || c == '\t' || c == '\n' || c == '\r' || c == '\u{b}' || c == '\u{c}',
{
}

/// A text is blank exactly if it has no character but white space: one other
/// character, wherever it stands, makes it a text to be taken.
pub proof fn law_one_other_character_is_not_blank(a: Seq<char>, c: char, b: Seq<char>)
    ensures
        blank(Seq::<char>::empty()),
        blank(a + seq![c] + b) <==> blank(a) && white_space(c) && blank(b),
{
    let s = a + seq![c] + b;
    if blank(s) {
        assert forall|i: int| 0 <= i < a.len() implies white_space(#[trigger] a[i]) by {
            assert(s[i] == a[i]);
        }
        assert(white_space(s[a.len() as int]));
        assert forall|i: int| 0 <= i < b.len() implies white_space(#[trigger] b[i]) by {
            assert(s[a.len() + 1 + i] == b[i]);
        }
    }
    if blank(a) && white_space(c) && blank(b) {
        assert forall|i: int| 0 <= i < s.len() implies white_space(#[trigger] s[i]) by {
            if i < a.len() {
                assert(s[i] == a[i]);
            } else if i > a.len() {
                assert(s[i] == b[i - a.len() - 1]);
            }
        }
    }
}

/// The views of a list of texts are the texts, in their order.
pub proof fn law_views_are_the_texts(list: Seq<String>)
    ensures
        views(list).len() == list.len(),
        forall|i: int| 0 <= i < list.len() ==> #[trigger] views(list)[i] == list[i]@,
{
}

/// Beyond ASCII these are white space and nothing else: the next line, the no-break
/// spaces, the spaces of general punctuation, the separators of lines and paragraphs, and
/// the ogham, mathematical and ideographic spaces.
pub proof fn law_white_space_beyond_ascii(c: char)
    requires
        c > '\u{7f}',
    ensures
        white_space(c) <==> {
            let n = c as u32;
            ||| n == 0x85
            ||| n == 0xa0
            ||| n == 0x1680
            ||| 0x2000 <= n <= 0x200a
            ||| n == 0x2028
            ||| n == 0x2029
            ||| n == 0x202f
            ||| n == 0x205f
            ||| n == 0x3000
        },
{
}

} // verus!
