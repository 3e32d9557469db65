//! The raw tokenizer: groups the lines of an export byte stream into one
//! raw record per top-level command, reading `data <N>` payloads as exactly
//! `N` raw bytes (binary-safe).
//!
//! `tokenize_from` is the spec-level definition of the grouping; the
//! executable tokenizer is proved to follow it byte for byte.

use vstd::prelude::*;

use crate::bytestr::{dec_val, has_prefix, is_digits, parse_decimal_u64, starts_with_bytes,
    bytes_eq};
use crate::wire::{blob_word, blob_word_bytes, commit_prefix, commit_prefix_bytes, data_prefix,
    data_prefix_bytes, feature_prefix, feature_prefix_bytes, reset_prefix, reset_prefix_bytes};

verus! {

/// Malformed low-level framing of the stream.
#[derive(Debug, Clone, Copy, PartialEq, Eq, Structural)]
pub enum TokenizeError {
    /// A `data <N>` line whose length token is not a decimal number that fits.
    InvalidDataLength,
    /// The stream ended before a declared `data` payload was complete.
    UnexpectedEof,
}

/// One item of a raw record: an ordinary line (without its newline), or a
/// `data` block holding the length token and the raw payload bytes.
#[derive(Debug, Clone, PartialEq)]
pub enum RawLine {
    Line(Vec<u8>),
    Data(Vec<u8>, Vec<u8>),
}

/// One tokenized top-level command with its full trailing payload, prior
/// to structural interpretation.
#[derive(Debug, Clone, PartialEq)]
pub struct UnparsedFastExportObject {
    pub items: Vec<RawLine>,
}

/// Spec-level image of a `RawLine`.
pub enum RawItemModel {
    Line(Seq<u8>),
    Data(Seq<u8>, Seq<u8>),
}

pub open spec fn raw_line_view(r: RawLine) -> RawItemModel {
    match r {
        RawLine::Line(l) => RawItemModel::Line(l@),
        RawLine::Data(tok, bytes) => RawItemModel::Data(tok@, bytes@),
    }
}

pub open spec fn items_view(items: Seq<RawLine>) -> Seq<RawItemModel> {
    items.map_values(|x: RawLine| raw_line_view(x))
}

pub open spec fn record_view(r: UnparsedFastExportObject) -> Seq<RawItemModel> {
    items_view(r.items@)
}

pub open spec fn records_view(rs: Seq<UnparsedFastExportObject>) -> Seq<Seq<RawItemModel>> {
    rs.map_values(|x: UnparsedFastExportObject| record_view(x))
}

/// A line that begins a new top-level group in the stream.
pub open spec fn is_record_starter(line: Seq<u8>) -> bool {
    ||| has_prefix(line, commit_prefix())
    ||| line =~= blob_word()
    ||| has_prefix(line, reset_prefix())
    ||| has_prefix(line, feature_prefix())
}

/// The command line a record is built around.
pub open spec fn is_main_line(line: Seq<u8>) -> bool {
    has_prefix(line, commit_prefix()) || line =~= blob_word()
}

/// Index of the newline that ends the line starting at `i`, or the end of
/// the stream.
pub open spec fn line_end(s: Seq<u8>, i: int) -> int
    decreases s.len() - i,
{
    if i < 0 {
        0
    } else if i >= s.len() {
        s.len() as int
    } else if s[i] == 10 {
        i
    } else {
        line_end(s, i + 1)
    }
}

pub proof fn lemma_line_end(s: Seq<u8>, i: int)
    requires
        0 <= i <= s.len(),
    ensures
        i <= line_end(s, i) <= s.len(),
        forall|k: int| i <= k < line_end(s, i) ==> s[k] != 10,
        line_end(s, i) < s.len() ==> s[line_end(s, i)] == 10,
    decreases s.len() - i,
{
    if i < s.len() && s[i] != 10 {
        lemma_line_end(s, i + 1);
    }
}

/// The outcome of scanning for one more record.
pub enum TokStep {
    /// A record and the position at which scanning for the next one starts.
    Rec(Seq<RawItemModel>, int),
    /// Clean end of stream, no record left.
    End,
    /// Malformed framing.
    Fail(TokenizeError),
}

/// Scan one record starting at `i`, with the items gathered so far and
/// whether the record's command line has been seen.  A record ends at the
/// end of the stream or just before the next top-level starter line.
pub open spec fn next_record(s: Seq<u8>, i: int, acc: Seq<RawItemModel>, seen_main: bool) -> TokStep
    decreases s.len() + 1 - i,
    via next_record_decreases
{
    if i < 0 {
        TokStep::End
    } else if i >= s.len() {
        if acc.len() == 0 {
            TokStep::End
        } else {
            TokStep::Rec(acc, s.len() as int)
        }
    } else {
        let j = line_end(s, i);
        let line = s.subrange(i, j);
        if seen_main && is_record_starter(line) {
            TokStep::Rec(acc, i)
        } else if line.len() == 0 {
            next_record(s, j + 1, acc, seen_main)
        } else if has_prefix(line, data_prefix()) {
            let tok = line.subrange(data_prefix().len() as int, line.len() as int);
            if !(tok.len() > 0 && is_digits(tok) && dec_val(tok) <= u64::MAX) {
                TokStep::Fail(TokenizeError::InvalidDataLength)
            } else if j + 1 + dec_val(tok) > s.len() {
                TokStep::Fail(TokenizeError::UnexpectedEof)
            } else {
                next_record(
                    s,
                    j + 1 + dec_val(tok),
                    acc.push(RawItemModel::Data(tok, s.subrange(j + 1, j + 1 + dec_val(tok)))),
                    seen_main,
                )
            }
        } else {
            next_record(s, j + 1, acc.push(RawItemModel::Line(line)), seen_main || is_main_line(
                line,
            ))
        }
    }
}

#[via_fn]
proof fn next_record_decreases(s: Seq<u8>, i: int, acc: Seq<RawItemModel>, seen_main: bool) {
    if 0 <= i < s.len() {
        lemma_line_end(s, i);
    }
}

/// Positions only move forward: a record scan that yields a record leaves
/// the cursor inside the stream, and strictly ahead of where it started
/// whenever it started fresh.
pub proof fn lemma_next_record_pos(s: Seq<u8>, i: int, acc: Seq<RawItemModel>, seen_main: bool)
    requires
        0 <= i <= s.len() + 1,
    ensures
        next_record(s, i, acc, seen_main) matches TokStep::Rec(r, j) ==> i - 1 <= j <= s.len(),
        acc.len() == 0 && !seen_main && i <= s.len() ==> (next_record(s, i, acc, seen_main)
            matches TokStep::Rec(r, j) ==> j > i),
    decreases s.len() + 1 - i,
{
    if i >= s.len() {
    } else {
        lemma_line_end(s, i);
        let j = line_end(s, i);
        let line = s.subrange(i, j);
        if seen_main && is_record_starter(line) {
        } else if line.len() == 0 {
            lemma_next_record_pos(s, j + 1, acc, seen_main);
            if acc.len() == 0 && !seen_main && j + 1 > s.len() {
                assert(next_record(s, j + 1, acc, seen_main) is End);
            }
        } else if has_prefix(line, data_prefix()) {
            let tok = line.subrange(data_prefix().len() as int, line.len() as int);
            if tok.len() > 0 && is_digits(tok) && dec_val(tok) <= u64::MAX && j + 1 + dec_val(tok)
                <= s.len() {
                assert(j > i) by {
                    assert(line.len() > 0);
                }
                lemma_next_record_pos(
                    s,
                    j + 1 + dec_val(tok),
                    acc.push(RawItemModel::Data(tok, s.subrange(j + 1, j + 1 + dec_val(tok)))),
                    seen_main,
                );
            }
        } else {
            assert(j > i) by {
                assert(line.len() > 0);
            }
            lemma_next_record_pos(s, j + 1, acc.push(RawItemModel::Line(line)), seen_main
                || is_main_line(line));
        }
    }
}

/// The full sequence of raw records from position `i` to the end of the
/// stream, or the first framing error.
pub open spec fn tokenize_from(s: Seq<u8>, i: int) -> Result<Seq<Seq<RawItemModel>>, TokenizeError>
    decreases s.len() - i,
    via tokenize_from_decreases
{
    if !(0 <= i <= s.len()) {
        Ok(seq![])
    } else {
        match next_record(s, i, seq![], false) {
            TokStep::End => Ok(seq![]),
            TokStep::Fail(e) => Err(e),
            TokStep::Rec(r, j) => match tokenize_from(s, j) {
                Ok(rest) => Ok(seq![r] + rest),
                Err(e) => Err(e),
            },
        }
    }
}

#[via_fn]
proof fn tokenize_from_decreases(s: Seq<u8>, i: int) {
    if 0 <= i <= s.len() {
        lemma_next_record_pos(s, i, seq![], false);
    }
}

/* Executable tokenizer */

/// Copy `s[a..b]` into an owned vector.
pub fn copy_range(s: &[u8], a: usize, b: usize) -> (r: Vec<u8>)
    requires
        a <= b <= s@.len(),
    ensures
        r@ =~= s@.subrange(a as int, b as int),
{
    let mut out: Vec<u8> = Vec::new();
    let mut k: usize = a;
    while k < b
        invariant
            a <= k <= b <= s@.len(),
            out@ =~= s@.subrange(a as int, k as int),
        decreases b - k,
    {
        out.push(s[k]);
        proof {
            assert(out@ =~= s@.subrange(a as int, k as int + 1));
        }
        k = k + 1;
    }
    out
}

/// Find the end of the line that starts at `i`.
fn scan_line_end(s: &[u8], i: usize) -> (j: usize)
    requires
        i <= s@.len(),
    ensures
        j == line_end(s@, i as int),
        i <= j <= s@.len(),
{
    let mut k: usize = i;
    while k < s.len() && s[k] != 10
        invariant
            i <= k <= s@.len(),
            line_end(s@, i as int) == line_end(s@, k as int),
        decreases s@.len() - k,
    {
        k = k + 1;
    }
    proof {
        lemma_line_end(s@, i as int);
    }
    k
}

fn is_record_starter_exec(line: &Vec<u8>) -> (r: bool)
    ensures
        r == is_record_starter(line@),
{
    let p = commit_prefix_bytes();
    if starts_with_bytes(line.as_slice(), p.as_slice()) {
        return true;
    }
    let w = blob_word_bytes();
    if bytes_eq(line.as_slice(), w.as_slice()) {
        return true;
    }
    let p = reset_prefix_bytes();
    if starts_with_bytes(line.as_slice(), p.as_slice()) {
        return true;
    }
    let p = feature_prefix_bytes();
    starts_with_bytes(line.as_slice(), p.as_slice())
}

fn is_main_line_exec(line: &Vec<u8>) -> (r: bool)
    ensures
        r == is_main_line(line@),
{
    let p = commit_prefix_bytes();
    if starts_with_bytes(line.as_slice(), p.as_slice()) {
        return true;
    }
    let w = blob_word_bytes();
    bytes_eq(line.as_slice(), w.as_slice())
}

/// Scan one raw record starting at `pos`.  Returns the record and the
/// position where the next one starts, `None` at a clean end of stream,
/// or the framing error.
pub fn tokenize_next_record(input: &[u8], pos: usize) -> (r: Result<
    Option<(UnparsedFastExportObject, usize)>,
    TokenizeError,
>)
    requires
        pos <= input@.len(),
        input@.len() < usize::MAX,
    ensures
        ({
            let step = next_record(input@, pos as int, Seq::<RawItemModel>::empty(), false);
            match r {
                Ok(rec_opt) => match rec_opt {
                    None => step is End,
                    Some((rec, newpos)) => step matches TokStep::Rec(rr, jj) && record_view(rec)
                        =~= rr && newpos == jj,
                },
                Err(e) => step matches TokStep::Fail(ee) && e == ee,
            }
        }),
{
    let ghost s = input@;
    let mut i: usize = pos;
    let mut acc: Vec<RawLine> = Vec::new();
    let mut seen_main = false;
    proof {
        assert(items_view(acc@) =~= Seq::<RawItemModel>::empty());
    }
    loop
        invariant
            pos <= i <= s.len() + 1,
            s =~= input@,
            s.len() < usize::MAX,
            next_record(s, pos as int, Seq::<RawItemModel>::empty(), false) == next_record(
                s,
                i as int,
                items_view(acc@),
                seen_main,
            ),
        decreases s.len() + 1 - i,
    {
        let ghost accv = items_view(acc@);
        if i >= input.len() {
            if acc.len() == 0 {
                assert(accv.len() == 0);
                return Ok(None);
            } else {
                assert(accv.len() > 0);
                let rec = UnparsedFastExportObject { items: acc };
                return Ok(Some((rec, input.len())));
            }
        }
        let j = scan_line_end(input, i);
        let line = copy_range(input, i, j);
        proof {
            lemma_line_end(s, i as int);
        }
        if seen_main && is_record_starter_exec(&line) {
            let rec = UnparsedFastExportObject { items: acc };
            return Ok(Some((rec, i)));
        } else if line.len() == 0 {
            i = j + 1;
        } else {
            let p = data_prefix_bytes();
            if starts_with_bytes(line.as_slice(), p.as_slice()) {
                let tok = copy_range(line.as_slice(), p.len(), line.len());
                proof {
                    assert(tok@ =~= s.subrange(i as int, j as int).subrange(
                        data_prefix().len() as int,
                        s.subrange(i as int, j as int).len() as int,
                    ));
                }
                match parse_decimal_u64(tok.as_slice()) {
                    None => {
                        return Err(TokenizeError::InvalidDataLength);
                    },
                    Some(n) => {
                        if j + 1 > input.len() {
                            assert(j + 1 + dec_val(tok@) > s.len());
                            return Err(TokenizeError::UnexpectedEof);
                        }
                        let remaining: u64 = (input.len() - (j + 1)) as u64;
                        if n > remaining {
                            assert(j + 1 + dec_val(tok@) > s.len());
                            return Err(TokenizeError::UnexpectedEof);
                        }
                        let n_usize: usize = n as usize;
                        let payload = copy_range(input, j + 1, j + 1 + n_usize);
                        let ghost prev = items_view(acc@);
                        acc.push(RawLine::Data(tok, payload));
                        proof {
                            assert(items_view(acc@) =~= prev.push(
                                RawItemModel::Data(
                                    tok@,
                                    s.subrange(j as int + 1, j + 1 + dec_val(tok@)),
                                ),
                            ));
                        }
                        i = j + 1 + n_usize;
                    },
                }
            } else {
                let main_here = is_main_line_exec(&line);
                let ghost prev = items_view(acc@);
                acc.push(RawLine::Line(line));
                proof {
                    assert(items_view(acc@) =~= prev.push(
                        RawItemModel::Line(s.subrange(i as int, j as int)),
                    ));
                }
                seen_main = seen_main || main_here;
                i = j + 1;
            }
        }
    }
}

/// Tokenize a whole stream into its sequence of raw records, or report the
/// first framing error.
pub fn tokenize_stream(input: &[u8]) -> (r: Result<Vec<UnparsedFastExportObject>, TokenizeError>)
    requires
        input@.len() < usize::MAX,
    ensures
        ({
            let m = tokenize_from(input@, 0);
            match r {
                Ok(recs) => m matches Ok(mrecs) && recs@.len() == mrecs.len() && (forall|k: int|
                    0 <= k < mrecs.len() ==> record_view(#[trigger] recs@[k]) =~= mrecs[k]),
                Err(e) => m matches Err(ee) && e == ee,
            }
        }),
{
    let ghost s = input@;
    let mut out: Vec<UnparsedFastExportObject> = Vec::new();
    let mut pos: usize = 0;
    loop
        invariant
            pos <= s.len(),
            s =~= input@,
            s.len() < usize::MAX,
            ({
                let m0 = tokenize_from(s, 0);
                let mrest = tokenize_from(s, pos as int);
                &&& (mrest matches Ok(rest) ==> m0 matches Ok(all) && all =~= records_view(out@) + rest)
                &&& (mrest matches Err(e) ==> m0 matches Err(e2) && e == e2)
            }),
        decreases s.len() - pos,
    {
        let ghost outv = records_view(out@);
        match tokenize_next_record(input, pos) {
            Err(e) => {
                return Err(e);
            },
            Ok(None) => {
                proof {
                    assert(tokenize_from(s, pos as int) == Ok::<_, TokenizeError>(
                        Seq::<Seq<RawItemModel>>::empty(),
                    ));
                    assert(outv + Seq::<Seq<RawItemModel>>::empty() =~= outv);
                }
                return Ok(out);
            },
            Ok(Some((rec, newpos))) => {
                proof {
                    lemma_next_record_pos(s, pos as int, Seq::<RawItemModel>::empty(), false);
                }
                let ghost rv = record_view(rec);
                out.push(rec);
                proof {
                    let step = next_record(s, pos as int, Seq::<RawItemModel>::empty(), false);
                    assert(step matches TokStep::Rec(rr, jj) && rv =~= rr && newpos == jj);
                    assert(records_view(out@) =~= outv
                        .push(rv));
                    let mrest = tokenize_from(s, newpos as int);
                    match mrest {
                        Ok(rest) => {
                            assert(tokenize_from(s, pos as int) matches Ok(w) && w =~= seq![rv]
                                + rest);
                            assert(outv + (seq![rv] + rest) =~= outv.push(rv) + rest);
                        },
                        Err(e) => {},
                    }
                }
                pos = newpos;
            },
        }
    }
}

} // verus!
