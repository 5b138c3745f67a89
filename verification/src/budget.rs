//! Deterministic, line-based output paging.

use vstd::prelude::*;
use crate::text::{
    decimal, decimal_text, join_between, joined, law_decimal_reads_back, law_joined_of_parts,
    law_no_line_holds_a_line_feed, law_pieces_of_joined, law_pieces_of_parts, lines, pieces, split_lines, views,
};

verus! {

pub const DEFAULT_TOKEN_BUDGET: usize = 8_500;

pub const DEFAULT_LINES: usize = 200;

pub const MAX_LINES: usize = 2_000;

/// Which lines of an output to show.
#[derive(Clone, Copy, Debug, PartialEq, Eq)]
pub struct Page {
    /// One-based line offset.
    pub offset: Option<usize>,
    /// Maximum lines returned; defaults to 200.
    pub limit: Option<usize>,
}

impl Default for Page {
    fn default() -> (r: Self)
        ensures
            r == (Page { offset: None, limit: None }),
    {
        Page { offset: None, limit: None }
    }
}

impl Page {
    /// The number of lines that stand before the page.
    pub open spec fn start(self) -> nat {
        match self.offset {
            Some(n) => if n >= 1 {
                (n - 1) as nat
            } else {
                0
            },
            None => 0,
        }
    }

    /// The largest number of lines on the page.
    pub open spec fn span(self) -> nat {
        match self.limit {
            Some(n) => if n < 1 {
                1
            } else if n > MAX_LINES {
                MAX_LINES as nat
            } else {
                n as nat
            },
            None => DEFAULT_LINES as nat,
        }
    }

    /// Whether the end of the page is a machine number.
    pub open spec fn in_range(self) -> bool {
        self.start() + self.span() <= usize::MAX
    }

    /// The end of the page in a text of `count` lines.
    pub open spec fn end(self, count: nat) -> nat {
        if self.start() + self.span() <= count {
            self.start() + self.span()
        } else {
            count
        }
    }

    /// The page that a reader is told to ask for next, in a text of `count`
    /// lines: there is one as long as lines are left.
    pub open spec fn next(self, count: nat) -> Option<Page> {
        if self.end(count) < count {
            Some(Page { offset: Some((self.end(count) + 1) as usize), limit: self.limit })
        } else {
            None
        }
    }

    /// The lines on the page.
    pub open spec fn lines_on(self, all: Seq<Seq<char>>) -> Seq<Seq<char>> {
        if self.start() < all.len() {
            all.subrange(self.start() as int, self.end(all.len()) as int)
        } else {
            Seq::empty()
        }
    }

    /// Whether the end of the page is a machine number.
    pub fn is_in_range(&self) -> (r: bool)
        ensures
            r == self.in_range(),
    {
        self.first_line() <= usize::MAX - self.line_span()
    }

    fn first_line(&self) -> (r: usize)
        ensures
            r == self.start(),
    {
        match self.offset {
            Some(n) => if n >= 1 {
                n - 1
            } else {
                0
            },
            None => 0,
        }
    }

    fn line_span(&self) -> (r: usize)
        ensures
            r == self.span(),
            1 <= r <= MAX_LINES,
    {
        match self.limit {
            Some(n) => if n < 1 {
                1
            } else if n > MAX_LINES {
                MAX_LINES
            } else {
                n
            },
            None => DEFAULT_LINES,
        }
    }
}

/// The last line of an output of `count` lines of which this page is shown.
pub open spec fn trailer(page: Page, count: nat) -> Seq<char> {
    if page.end(count) < count {
        "(Partial: lines "@ + decimal(page.start() + 1) + "-"@ + decimal(page.end(count))
            + " shown. Continue with offset="@ + decimal(page.end(count) + 1) + ".)"@
    } else {
        "(Complete: all "@ + decimal(count) + " lines shown.)"@
    }
}

/// The page of `text`: its lines with a line feed between neighbours and, unless
/// that is no text at all, one after the last; then the trailer.
pub open spec fn paginated(text: Seq<char>, page: Page) -> Seq<char> {
    let all = lines(text);
    let body = joined(page.lines_on(all), "\n"@);
    let ended = if body.len() > 0 {
        body + "\n"@
    } else {
        body
    };
    ended + trailer(page, all.len())
}

/// Shows one page of `text` and says how to go on.
pub fn paginate(text: &str, page: &Page) -> (r: String)
    requires
        page.in_range(),
    ensures
        r@ == paginated(text@, *page),
{
    let all = split_lines(text);
    let start: usize = page.first_line();
    let limit: usize = page.line_span();
    let end: usize = if start + limit <= all.len() {
        start + limit
    } else {
        all.len()
    };
    assert(views(all@).len() == all@.len());
    let mut output = if start < all.len() {
        join_between(&all, start, end, "\n")
    } else {
        String::new()
    };
    let ghost body = output@;
    assert(body =~= joined(page.lines_on(lines(text@)), "\n"@));
    if !output.as_str().is_empty() {
        output.append("\n");
    }
    let ghost ended = output@;
    if end < all.len() {
        output.append("(Partial: lines ");
        output.append(decimal_text(start as u64 + 1).as_str());
        output.append("-");
        output.append(decimal_text(end as u64).as_str());
        output.append(" shown. Continue with offset=");
        output.append(decimal_text(end as u64 + 1).as_str());
        output.append(".)");
        assert(output@ =~= ended + trailer(*page, all@.len()));
    } else {
        output.append("(Complete: all ");
        output.append(decimal_text(all.len() as u64).as_str());
        output.append(" lines shown.)");
        assert(output@ =~= ended + trailer(*page, all@.len()));
    }
    output
}

/// Every output ends in its trailer, which says whether all lines were shown
/// and, where they were not, at which offset to go on. The output is a function
/// of the text and the page alone.
pub proof fn law_output_ends_in_trailer(text: Seq<char>, page: Page)
    ensures
        trailer(page, lines(text).len()).len() <= paginated(text, page).len(),
        paginated(text, page).skip(paginated(text, page).len() - trailer(page, lines(text).len()).len()) == trailer(
            page,
            lines(text).len(),
        ),
{
    let t = trailer(page, lines(text).len());
    let whole = paginated(text, page);
    assert(whole.skip(whole.len() - t.len()) =~= t);
}

/// The lines that a reader sees who starts at `page` and follows each
/// continuation to the last.
pub open spec fn lines_followed(all: Seq<Seq<char>>, page: Page) -> Seq<Seq<char>>
    decreases all.len() - page.start(),
    when all.len() < usize::MAX
{
    page.lines_on(all) + match page.next(all.len()) {
        Some(next) => lines_followed(all, next),
        None => Seq::empty(),
    }
}

/// The continuation of a page starts where the page ended.
pub proof fn law_continuation_starts_where_page_ends(count: nat, page: Page)
    requires
        count < usize::MAX,
        page.next(count) is Some,
    ensures
        page.next(count)->0.start() == page.end(count),
        page.next(count)->0.span() == page.span(),
        page.next(count)->0.offset == Some((page.end(count) + 1) as usize),
{
}

/// Following the continuations from a page shows every line from the start of
/// that page on, once and in order; from the first page, all lines.
pub proof fn law_continuations_show_every_line(all: Seq<Seq<char>>, page: Page)
    requires
        all.len() < usize::MAX,
        page.start() <= all.len(),
    ensures
        lines_followed(all, page) == all.skip(page.start() as int),
    decreases all.len() - page.start(),
{
    match page.next(all.len()) {
        Some(next) => {
            law_continuations_show_every_line(all, next);
            assert(page.lines_on(all) + all.skip(next.start() as int) =~= all.skip(page.start() as int));
        },
        None => {
            assert(page.lines_on(all) =~= all.skip(page.start() as int));
        },
    }
}

proof fn lemma_trailer_is_one_line(page: Page, count: nat)
    ensures
        !trailer(page, count).contains('\n'),
{
    reveal_strlit("(Partial: lines ");
    reveal_strlit("-");
    reveal_strlit(" shown. Continue with offset=");
    reveal_strlit(".)");
    reveal_strlit("(Complete: all ");
    reveal_strlit(" lines shown.)");
    law_decimal_reads_back(page.start() + 1);
    law_decimal_reads_back(page.end(count));
    law_decimal_reads_back(page.end(count) + 1);
    law_decimal_reads_back(count);
    let t = trailer(page, count);
    if page.end(count) < count {
        let a = "(Partial: lines "@ + decimal(page.start() + 1);
        let b = a + "-"@ + decimal(page.end(count));
        let c = b + " shown. Continue with offset="@ + decimal(page.end(count) + 1);
        assert(t =~= c + ".)"@);
        assert forall|i: int| 0 <= i < a.len() implies a[i] != '\n' by {}
        assert forall|i: int| 0 <= i < b.len() implies b[i] != '\n' by {}
        assert forall|i: int| 0 <= i < c.len() implies c[i] != '\n' by {}
        assert forall|i: int| 0 <= i < t.len() implies t[i] != '\n' by {}
    } else {
        assert forall|i: int| 0 <= i < t.len() implies t[i] != '\n' by {}
    }
}

/// What is shown is every line of the page in full, each on a line of its own, and
/// then the trailer. The page begins at the line that the offset counts from one,
/// or at the first, and has as many lines as the limit allows: 200 where none is
/// given, at least one and at most 2000. Only a page of one empty line shows nothing
/// but the trailer. The trailer says that all lines were shown exactly if the last
/// one was, and else with which offset to go on.
pub proof fn law_a_page_shows_its_lines_in_full(text: Seq<char>, page: Page)
    ensures
        ({
            let all = lines(text);
            let from: int = match page.offset {
                Some(n) => if n == 0 {
                    0
                } else {
                    n - 1
                },
                None => 0,
            };
            let width: int = match page.limit {
                Some(n) => if n == 0 {
                    1
                } else if n > 2000 {
                    2000
                } else {
                    n as int
                },
                None => 200,
            };
            let to = if from + width < all.len() {
                from + width
            } else {
                all.len() as int
            };
            let shown = if from < to {
                all.subrange(from, to)
            } else {
                Seq::empty()
            };
            let last = if to < all.len() {
                "(Partial: lines "@ + decimal((from + 1) as nat) + "-"@ + decimal(to as nat)
                    + " shown. Continue with offset="@ + decimal((to + 1) as nat) + ".)"@
            } else {
                "(Complete: all "@ + decimal(all.len()) + " lines shown.)"@
            };
            if shown.len() == 1 && shown[0].len() == 0 {
                paginated(text, page) == last
            } else {
                pieces(paginated(text, page), '\n') == shown.push(last)
            }
        }),
{
    reveal_strlit("\n");
    let all = lines(text);
    let shown = page.lines_on(all);
    let last = trailer(page, all.len());
    let feed = seq!['\n'];
    assert("\n"@ =~= feed);
    lemma_trailer_is_one_line(page, all.len());
    law_no_line_holds_a_line_feed(text);
    let whole = paginated(text, page);
    if shown.len() == 0 {
        assert(whole =~= last);
        law_pieces_of_parts(last, Seq::empty(), '\n');
        assert(shown.push(last) =~= seq![last]);
    } else if shown.len() == 1 && shown[0].len() == 0 {
        assert(whole =~= last);
    } else {
        let rows = shown.push(last);
        assert(rows =~= shown + seq![last]);
        law_joined_of_parts(shown, seq![last], feed);
        law_joined_of_parts(seq![last], Seq::empty(), feed);
        if shown.len() > 1 {
            let rest = shown.drop_first();
            assert(shown =~= seq![shown[0]] + rest);
            law_joined_of_parts(seq![shown[0]], rest, feed);
        }
        assert(whole =~= joined(rows, feed));
        assert forall|i: int| 0 <= i < rows.len() implies !(#[trigger] rows[i]).contains('\n') by {
            if i < shown.len() {
                assert(rows[i] == all[page.start() + i]);
            }
        }
        law_pieces_of_joined(rows, '\n');
    }
}

} // verus!
