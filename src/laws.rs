use vstd::prelude::*;

use crate::matching::pattern_bytes;
use crate::scan::{complete_lines, consumed_len, lines_from, matched_lines, reported, NEWLINE};

verus! {

/// The lines from `i` on depend only on the bytes from `c` on.
proof fn lemma_lines_shift(e: Seq<u8>, c: int, s: int, i: int)
    requires
        0 <= c <= s <= i <= e.len(),
    ensures
        lines_from(e, s, i) == lines_from(e.subrange(c, e.len() as int), s - c, i - c),
    decreases e.len() - i,
{
    let t = e.subrange(c, e.len() as int);
    if i < e.len() {
        assert(t[i - c] == e[i]);
        if e[i] == NEWLINE {
            assert(t.subrange(s - c, i - c) =~= e.subrange(s, i));
            lemma_lines_shift(e, c, i + 1, i + 1);
        } else {
            lemma_lines_shift(e, c, s, i + 1);
        }
    }
}

/// Cutting the bytes just after a line feed cuts the lines there too.
proof fn lemma_lines_cut(e: Seq<u8>, c: int, s: int, i: int)
    requires
        0 <= s <= i <= c <= e.len(),
        c == 0 || e[c - 1] == NEWLINE,
        i == c ==> s == c,
    ensures
        lines_from(e, s, i) == lines_from(e.subrange(0, c), s, i) + lines_from(e, c, c),
    decreases c - i,
{
    let p = e.subrange(0, c);
    if i == c {
        assert(lines_from(p, s, i) == Seq::<Seq<u8>>::empty());
        assert(Seq::<Seq<u8>>::empty() + lines_from(e, c, c) =~= lines_from(e, c, c));
    } else {
        assert(p[i] == e[i]);
        if e[i] == NEWLINE {
            assert(p.subrange(s, i) =~= e.subrange(s, i));
            lemma_lines_cut(e, c, i + 1, i + 1);
            let l = seq![crate::scan::strip_cr(e.subrange(s, i))];
            assert(l + (lines_from(p, i + 1, i + 1) + lines_from(e, c, c)) =~= (l + lines_from(
                p,
                i + 1,
                i + 1,
            )) + lines_from(e, c, c));
        } else {
            lemma_lines_cut(e, c, s, i + 1);
        }
    }
}

/// Without a line feed from `i` on, no line completes.
proof fn lemma_no_newline_no_lines(e: Seq<u8>, s: int, i: int)
    requires
        0 <= i,
        forall|t: int| i <= t < e.len() ==> e[t] != NEWLINE,
    ensures
        lines_from(e, s, i) == Seq::<Seq<u8>>::empty(),
    decreases e.len() - i,
{
    if i < e.len() {
        lemma_no_newline_no_lines(e, s, i + 1);
    }
}

/// The used-up prefix ends just after a line feed, and no line feed follows.
proof fn lemma_consumed(d: Seq<u8>)
    ensures
        0 <= consumed_len(d) <= d.len(),
        consumed_len(d) == 0 || d[consumed_len(d) - 1] == NEWLINE,
        forall|t: int| consumed_len(d) <= t < d.len() ==> d[t] != NEWLINE,
    decreases d.len(),
{
    if d.len() > 0 && d.last() != NEWLINE {
        let p = d.drop_last();
        lemma_consumed(p);
        assert forall|t: int| consumed_len(d) <= t < d.len() implies d[t] != NEWLINE by {
            if t < p.len() {
                assert(p[t] == d[t]);
            }
        }
    }
}

/// Complete lines split at a line end.
proof fn lemma_split_at_line_end(e: Seq<u8>, c: int)
    requires
        0 <= c <= e.len(),
        c == 0 || e[c - 1] == NEWLINE,
    ensures
        complete_lines(e) == complete_lines(e.subrange(0, c)) + complete_lines(
            e.subrange(c, e.len() as int),
        ),
{
    lemma_lines_cut(e, c, 0, 0);
    lemma_lines_shift(e, c, c, c);
}

/// Selecting the reported lines of two runs of lines one after the other.
proof fn lemma_reported_append(a: Seq<Seq<u8>>, b: Seq<Seq<u8>>, p: Seq<Seq<u8>>)
    ensures
        reported(a + b, p) == reported(a, p) + reported(b, p),
    decreases a.len(),
{
    if a.len() == 0 {
        assert(a + b =~= b);
        assert(Seq::<Seq<u8>>::empty() + reported(b, p) =~= reported(b, p));
    } else {
        assert((a + b).drop_first() =~= a.drop_first() + b);
        assert((a + b)[0] == a[0]);
        lemma_reported_append(a.drop_first(), b, p);
        let r = reported(a.drop_first(), p) + reported(b, p);
        assert(seq![a[0]] + r =~= (seq![a[0]] + reported(a.drop_first(), p)) + reported(b, p));
    }
}

/// Resuming is lossless and repeats nothing. A scan of `d` stops after its
/// last line feed; once `a` has been appended, a scan from there sees exactly
/// the lines that one scan of `d + a` would, after those of the first scan:
/// every complete line comes once, in file order, whatever the patterns.
pub proof fn lemma_resume_reports_each_line_once(d: Seq<u8>, a: Seq<u8>, patterns: Seq<&str>)
    ensures
        ({
            let all = d + a;
            let rest = all.subrange(consumed_len(d), all.len() as int);
            &&& complete_lines(all) == complete_lines(d) + complete_lines(rest)
            &&& matched_lines(all, patterns) == matched_lines(d, patterns) + matched_lines(
                rest,
                patterns,
            )
        }),
{
    let all = d + a;
    let c = consumed_len(d);
    lemma_consumed(d);
    assert(c == 0 || all[c - 1] == NEWLINE);
    lemma_split_at_line_end(all, c);
    lemma_split_at_line_end(d, c);
    assert(all.subrange(0, c) =~= d.subrange(0, c));
    lemma_no_newline_no_lines(d.subrange(c, d.len() as int), 0, 0);
    assert(complete_lines(d) =~= complete_lines(d.subrange(0, c)));
    lemma_reported_append(
        complete_lines(d),
        complete_lines(all.subrange(c, all.len() as int)),
        pattern_bytes(patterns),
    );
}

/// Polling again with nothing appended yields nothing: after the bytes that
/// a scan used up, no complete line is left, and nothing more would be used
/// up.
pub proof fn lemma_rescan_without_growth_is_empty(d: Seq<u8>, patterns: Seq<&str>)
    ensures
        ({
            let rest = d.subrange(consumed_len(d), d.len() as int);
            &&& complete_lines(rest) == Seq::<Seq<u8>>::empty()
            &&& matched_lines(rest, patterns) == Seq::<Seq<u8>>::empty()
            &&& consumed_len(rest) == 0
        }),
{
    let c = consumed_len(d);
    lemma_consumed(d);
    let rest = d.subrange(c, d.len() as int);
    lemma_no_newline_no_lines(rest, 0, 0);
    lemma_consumed(rest);
    if consumed_len(rest) > 0 {
        assert(rest[consumed_len(rest) - 1] == NEWLINE);
    }
}

/// A read that brings no complete line reports nothing.
pub proof fn lemma_nothing_consumed_nothing_matched(d: Seq<u8>, patterns: Seq<&str>)
    requires
        consumed_len(d) == 0,
    ensures
        complete_lines(d) == Seq::<Seq<u8>>::empty(),
        matched_lines(d, patterns) == Seq::<Seq<u8>>::empty(),
{
    lemma_consumed(d);
    lemma_no_newline_no_lines(d, 0, 0);
}

/// Polls of a file that only grows, each starting where the last one
/// stopped. A poll that starts at offset `s` of contents `c` (at a line start)
/// records `s` plus what it used up: never behind `s`, never past the end, and
/// again at a line start. Once `a` has been appended, the next poll reports
/// exactly the lines that one poll from `s` over `c + a` would, after those of
/// the first: no line twice, none lost, in file order. With nothing appended,
/// it reports nothing and records the same offset.
pub proof fn lemma_polls_of_growing_file(c: Seq<u8>, a: Seq<u8>, s: int, patterns: Seq<&str>)
    requires
        0 <= s <= c.len(),
        s == 0 || c[s - 1] == NEWLINE,
    ensures
        ({
            let all = c + a;
            let e = s + consumed_len(c.subrange(s, c.len() as int));
            &&& s <= e <= c.len()
            &&& e == 0 || c[e - 1] == NEWLINE
            &&& matched_lines(all.subrange(s, all.len() as int), patterns) == matched_lines(
                c.subrange(s, c.len() as int),
                patterns,
            ) + matched_lines(all.subrange(e, all.len() as int), patterns)
            &&& matched_lines(c.subrange(e, c.len() as int), patterns) == Seq::<Seq<u8>>::empty()
            &&& consumed_len(c.subrange(e, c.len() as int)) == 0
        }),
{
    let all = c + a;
    let d = c.subrange(s, c.len() as int);
    let k = consumed_len(d);
    let e = s + k;
    lemma_consumed(d);
    if k > 0 {
        assert(c[e - 1] == d[k - 1]);
    }
    assert(all.subrange(s, all.len() as int) =~= d + a);
    lemma_resume_reports_each_line_once(d, a, patterns);
    assert((d + a).subrange(k, (d + a).len() as int) =~= all.subrange(e, all.len() as int));
    lemma_rescan_without_growth_is_empty(d, patterns);
    assert(d.subrange(k, d.len() as int) =~= c.subrange(e, c.len() as int));
}

} // verus!
