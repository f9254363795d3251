use vstd::prelude::*;
use vstd::slice::slice_subrange;
use vstd::utf8::{encode_utf8, valid_utf8};

use crate::matching::{is_line_match_all_patterns, matches_all, pattern_bytes};

verus! {

/// Byte of a line feed, which ends a line.
pub const NEWLINE: u8 = 10;

/// Byte of a carriage return, dropped when it comes just before the line feed.
pub const CARRIAGE_RETURN: u8 = 13;

/// A line's text without the carriage return of a `\r\n` ending.
pub open spec fn strip_cr(l: Seq<u8>) -> Seq<u8> {
    if l.len() > 0 && l.last() == CARRIAGE_RETURN {
        l.drop_last()
    } else {
        l
    }
}

/// The complete lines of `d` from index `i` on, where the line in progress
/// began at `s`. A line is complete once its line feed has been read.
pub open spec fn lines_from(d: Seq<u8>, s: int, i: int) -> Seq<Seq<u8>>
    decreases d.len() - i,
{
    if i < 0 || i >= d.len() {
        seq![]
    } else if d[i] == NEWLINE {
        seq![strip_cr(d.subrange(s, i))] + lines_from(d, i + 1, i + 1)
    } else {
        lines_from(d, s, i + 1)
    }
}

/// The complete lines of `d`, in order; a trailing piece without line feed is
/// not among them.
pub open spec fn complete_lines(d: Seq<u8>) -> Seq<Seq<u8>> {
    lines_from(d, 0, 0)
}

/// How many leading bytes of `d` the complete lines take: up to and including
/// the last line feed, or none.
pub open spec fn consumed_len(d: Seq<u8>) -> int
    decreases d.len(),
{
    if d.len() == 0 {
        0
    } else if d.last() == NEWLINE {
        d.len() as int
    } else {
        consumed_len(d.drop_last())
    }
}

/// A line is reported when it is text and holds every pattern.
pub open spec fn is_reported(line: Seq<u8>, patterns: Seq<Seq<u8>>) -> bool {
    valid_utf8(line) && matches_all(line, patterns)
}

/// The lines of `lines` that are reported, in order.
pub open spec fn reported(lines: Seq<Seq<u8>>, patterns: Seq<Seq<u8>>) -> Seq<Seq<u8>>
    decreases lines.len(),
{
    if lines.len() == 0 {
        seq![]
    } else {
        let rest = reported(lines.drop_first(), patterns);
        if is_reported(lines[0], patterns) {
            seq![lines[0]] + rest
        } else {
            rest
        }
    }
}

/// The lines that a scan of `d` reports for `patterns`.
pub open spec fn matched_lines(d: Seq<u8>, patterns: Seq<&str>) -> Seq<Seq<u8>> {
    reported(complete_lines(d), pattern_bytes(patterns))
}

/// What a scan found: the matched lines, and how many bytes it used up.
pub struct ScanResult {
    pub lines: Vec<String>,
    pub consumed: usize,
}

/// The strings `texts` are, in order, the UTF-8 decodings of `bytes`.
pub open spec fn decodes_to(texts: Seq<String>, bytes: Seq<Seq<u8>>) -> bool {
    texts.len() == bytes.len() && forall|k: int|
        0 <= k < texts.len() ==> encode_utf8(#[trigger] texts[k]@) == bytes[k]
}

/// Relies on std::str::from_utf8: it accepts exactly the valid UTF-8 byte
/// sequences, and the text it gives encodes back to the same bytes.
#[verifier::external_body]
fn decode_line(b: &[u8]) -> (r: Option<String>)
    ensures
        r is Some <==> valid_utf8(b@),
        r matches Some(s) ==> encode_utf8(s@) == b@,
{
    match std::str::from_utf8(b) {
        Ok(s) => Some(s.to_owned()),
        Err(_) => None,
    }
}

proof fn lemma_reported_cons(line: Seq<u8>, rest: Seq<Seq<u8>>, patterns: Seq<Seq<u8>>)
    ensures
        reported(seq![line] + rest, patterns) == (if is_reported(line, patterns) {
            seq![line] + reported(rest, patterns)
        } else {
            reported(rest, patterns)
        }),
{
    let all = seq![line] + rest;
    assert(all[0] == line);
    assert(all.drop_first() =~= rest);
}

/// Splits `data`, the bytes read from some offset to the end of a file, into
/// complete lines, and keeps those that are text holding every pattern. The
/// bytes after the last line feed are left for a later scan.
pub fn scan_lines(data: &Vec<u8>, patterns: &Vec<&str>) -> (r: ScanResult)
    ensures
        decodes_to(r.lines@, matched_lines(data@, patterns@)),
        r.consumed == consumed_len(data@),
        r.consumed <= data@.len(),
{
    let ghost d = data@;
    let ghost pats = pattern_bytes(patterns@);
    let ghost mut sel: Seq<Seq<u8>> = seq![];
    let mut out: Vec<String> = Vec::new();
    let mut line_start: usize = 0;
    let mut i: usize = 0;
    assert(d.subrange(0, 0).len() == 0);
    while i < data.len()
        invariant
            d == data@,
            pats == pattern_bytes(patterns@),
            i <= d.len(),
            line_start <= i,
            line_start == consumed_len(d.subrange(0, i as int)),
            forall|t: int| line_start <= t < i ==> d[t] != NEWLINE,
            sel + reported(lines_from(d, line_start as int, i as int), pats) == reported(
                complete_lines(d),
                pats,
            ),
            decodes_to(out@, sel),
        decreases d.len() - i,
    {
        assert(d.subrange(0, i + 1).drop_last() =~= d.subrange(0, i as int));
        if data[i] == NEWLINE {
            let mut end: usize = i;
            if end > line_start && data[end - 1] == CARRIAGE_RETURN {
                end = end - 1;
            }
            let line = slice_subrange(data.as_slice(), line_start, end);
            assert(line@ == strip_cr(d.subrange(line_start as int, i as int)));
            let ghost rest = lines_from(d, i + 1, i + 1);
            assert(lines_from(d, line_start as int, i as int) == seq![line@] + rest);
            proof {
                lemma_reported_cons(line@, rest, pats);
            }
            if is_line_match_all_patterns(line, patterns) {
                match decode_line(line) {
                    Some(text) => {
                        out.push(text);
                        proof {
                            assert(sel + (seq![line@] + reported(rest, pats)) =~= sel.push(line@)
                                + reported(rest, pats));
                            sel = sel.push(line@);
                        }
                    },
                    None => {},
                }
            }
            line_start = i + 1;
        } else {
            assert(lines_from(d, line_start as int, i as int) == lines_from(
                d,
                line_start as int,
                i + 1,
            ));
        }
        i = i + 1;
    }
    assert(d.subrange(0, i as int) =~= d);
    assert(sel + seq![] =~= sel);
    ScanResult { lines: out, consumed: line_start }
}

} // verus!
