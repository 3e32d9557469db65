//! The serializer: turns a structured object back into the exact byte
//! layout the import side of the protocol accepts.
//!
//! `serialize_spec` is the byte-for-byte definition of that layout; the
//! executable writers below are proved to produce exactly it.

use vstd::prelude::*;
use vstd::utf8::encode_utf8;

use crate::bytestr::{dec_str, dec_val, has_prefix, is_digits};
use crate::unstructured_parse::{next_record, tokenize_from, RawItemModel, TokStep};
use crate::structured_parse::{
    BlobObjectOwned, BlobPartial, BuildState, CommitObjectOwned, CommitPersonOwned, FileOpsOwned,
    MainPartial, ObjectModel, StructuredExportObject, StructuredObjectType, build_data_step,
    build_fold, build_line_step, build_spec, finalize_build, init_build_state, object_matches,
};
use crate::wire::{
    author_prefix, author_prefix_bytes, feature_prefix, blob_word, blob_word_bytes, commit_prefix,
    commit_prefix_bytes, committer_prefix, committer_prefix_bytes, copy_prefix,
    copy_prefix_bytes, data_prefix, data_prefix_bytes, delete_prefix, delete_prefix_bytes,
    deleteall_word, deleteall_word_bytes, email_close, email_close_bytes, email_open,
    email_open_bytes, feature_done_line, feature_done_line_bytes, from_mark_prefix,
    from_mark_prefix_bytes, from_prefix, from_prefix_bytes, mark_prefix, mark_prefix_bytes,
    merge_mark_prefix, merge_mark_prefix_bytes, modify_prefix, modify_prefix_bytes, newline,
    note_prefix, note_prefix_bytes, original_oid_prefix, original_oid_prefix_bytes,
    rename_prefix, rename_prefix_bytes, reset_prefix, reset_prefix_bytes,
};

verus! {

/* The byte layout, as spec functions */

/// An `author ` or `committer ` line: keyword, optional name and a space,
/// `<email> `, then the time string, newline-terminated.
pub open spec fn person_line(p: CommitPersonOwned, is_author: bool) -> Seq<u8> {
    (if is_author {
        author_prefix()
    } else {
        committer_prefix()
    }) + (match p.name {
        Some(n) => encode_utf8(n@) + seq![32u8],
        None => seq![],
    }) + email_open() + encode_utf8(p.email@) + email_close() + encode_utf8(p.timestr@)
        + newline()
}

/// The optional `feature done` marker and reset block that precede a
/// record.  The `from` line belongs to the reset block: it is emitted
/// only under a reset target, and the block ends with a blank line.
pub open spec fn header_block(o: StructuredExportObject) -> Seq<u8> {
    (if o.has_feature_done {
        feature_done_line() + newline()
    } else {
        seq![]
    }) + (match o.has_reset {
        Some(r) => reset_prefix() + encode_utf8(r@) + newline() + (match o.has_reset_from {
            Some(f) => from_prefix() + encode_utf8(f@) + newline(),
            None => seq![],
        }) + newline(),
        None => seq![],
    })
}

/// One merge line: `from :<mark>` for the first parent, `merge :<mark>`
/// for every later one.
pub open spec fn merge_line(marks: Seq<u64>, i: int) -> Seq<u8> {
    (if i == 0 {
        from_mark_prefix()
    } else {
        merge_mark_prefix()
    }) + dec_str(marks[i] as nat) + newline()
}

pub open spec fn merge_lines(marks: Seq<u64>) -> Seq<u8>
    decreases marks.len(),
{
    if marks.len() == 0 {
        seq![]
    } else {
        merge_lines(marks.drop_last()) + merge_line(marks, marks.len() - 1)
    }
}

/// One file-operation line, keyword-specific, newline-terminated.
pub open spec fn fileop_line(f: FileOpsOwned) -> Seq<u8> {
    (match f {
        FileOpsOwned::FileModify(mode, dataref, path) => modify_prefix() + encode_utf8(mode@)
            + seq![32u8] + encode_utf8(dataref@) + seq![32u8] + encode_utf8(path@),
        FileOpsOwned::FileDelete(path) => delete_prefix() + encode_utf8(path@),
        FileOpsOwned::FileCopy(a, b) => copy_prefix() + encode_utf8(a@) + seq![32u8]
            + encode_utf8(b@),
        FileOpsOwned::FileRename(a, b) => rename_prefix() + encode_utf8(a@) + seq![32u8]
            + encode_utf8(b@),
        FileOpsOwned::FileDeleteAll => deleteall_word(),
        FileOpsOwned::NoteModify(dataref, commitish) => note_prefix() + encode_utf8(dataref@)
            + seq![32u8] + encode_utf8(commitish@),
    }) + newline()
}

pub open spec fn fileop_lines(fs: Seq<FileOpsOwned>) -> Seq<u8>
    decreases fs.len(),
{
    if fs.len() == 0 {
        seq![]
    } else {
        fileop_lines(fs.drop_last()) + fileop_line(fs.last())
    }
}

/// `commit <ref>` / `mark :<mark>` / `original-oid <oid>` lines.
pub open spec fn commit_head(c: CommitObjectOwned) -> Seq<u8> {
    commit_prefix() + encode_utf8(c.commit_ref@) + newline() + mark_prefix() + dec_str(
        c.mark as nat,
    ) + newline() + original_oid_prefix() + encode_utf8(c.original_oid@) + newline()
}

/// Optional author line, then the committer line.
pub open spec fn commit_people(c: CommitObjectOwned) -> Seq<u8> {
    (match c.author {
        Some(a) => person_line(a, true),
        None => seq![],
    }) + person_line(c.committer, false)
}

/// The message data block.  The length is recomputed from the decoded
/// message, not taken from the stream.
pub open spec fn commit_msg(c: CommitObjectOwned) -> Seq<u8> {
    data_prefix() + dec_str(encode_utf8(c.commit_message@).len()) + newline() + encode_utf8(
        c.commit_message@,
    ) + newline()
}

/// A full commit block, blank-line terminated.
pub open spec fn commit_block(c: CommitObjectOwned) -> Seq<u8> {
    commit_head(c) + commit_people(c) + commit_msg(c) + merge_lines(c.merges@) + fileop_lines(
        c.fileops@,
    ) + newline()
}

/// A blob block.  The `data` length token is the one captured verbatim
/// from the source stream.
pub open spec fn blob_block(o: StructuredExportObject, b: BlobObjectOwned) -> Seq<u8> {
    blob_word() + newline() + mark_prefix() + dec_str(b.mark as nat) + newline()
        + original_oid_prefix() + encode_utf8(b.original_oid@) + newline() + data_prefix()
        + encode_utf8(o.data_size@) + newline() + b.data@ + newline()
}

/// The full wire image of one structured object.
pub open spec fn serialize_spec(o: StructuredExportObject) -> Seq<u8> {
    header_block(o) + match o.object_type {
        StructuredObjectType::Commit(c) => commit_block(c),
        StructuredObjectType::Blob(b) => blob_block(o, b),
    }
}

/* Executable writers */

fn append_bytes(out: &mut Vec<u8>, src: &[u8])
    ensures
        final(out)@ =~= old(out)@ + src@,
{
    out.extend_from_slice(src);
}

fn append_vec(out: &mut Vec<u8>, src: &Vec<u8>)
    ensures
        final(out)@ =~= old(out)@ + src@,
{
    out.extend_from_slice(src.as_slice());
}

fn append_str(out: &mut Vec<u8>, s: &str)
    ensures
        final(out)@ =~= old(out)@ + encode_utf8(s@),
{
    out.extend_from_slice(s.as_bytes());
}

fn append_mark(out: &mut Vec<u8>, mark: u64)
    ensures
        final(out)@ =~= old(out)@ + dec_str(mark as nat),
{
    let digits = crate::bytestr::u64_to_decimal(mark);
    append_vec(out, &digits);
}

/// Write one person line in the import format.
pub fn write_person_info(write_data: &mut Vec<u8>, person: &CommitPersonOwned, is_author: bool)
    ensures
        final(write_data)@ =~= old(write_data)@ + person_line(*person, is_author),
{
    if is_author {
        let p = author_prefix_bytes();
        append_vec(write_data, &p);
    } else {
        let p = committer_prefix_bytes();
        append_vec(write_data, &p);
    }
    if let Some(name) = &person.name {
        append_str(write_data, name.as_str());
        write_data.push(32u8);
    }
    let p = email_open_bytes();
    append_vec(write_data, &p);
    append_str(write_data, person.email.as_str());
    let p = email_close_bytes();
    append_vec(write_data, &p);
    append_str(write_data, person.timestr.as_str());
    write_data.push(10u8);
}

#[verifier::rlimit(50)]
fn write_header_block(stream: &mut Vec<u8>, obj: &StructuredExportObject)
    ensures
        final(stream)@ =~= old(stream)@ + header_block(*obj),
{
    if obj.has_feature_done {
        let p = feature_done_line_bytes();
        append_vec(stream, &p);
        stream.push(10u8);
    }
    if let Some(reset_ref) = &obj.has_reset {
        let p = reset_prefix_bytes();
        append_vec(stream, &p);
        append_str(stream, reset_ref.as_str());
        stream.push(10u8);
        if let Some(reset_from) = &obj.has_reset_from {
            let p = from_prefix_bytes();
            append_vec(stream, &p);
            append_str(stream, reset_from.as_str());
            stream.push(10u8);
        }
        stream.push(10u8);
    }
}

fn write_commit_head(stream: &mut Vec<u8>, c: &CommitObjectOwned)
    ensures
        final(stream)@ =~= old(stream)@ + commit_head(*c),
{
    let p = commit_prefix_bytes();
    append_vec(stream, &p);
    append_str(stream, c.commit_ref.as_str());
    stream.push(10u8);
    let p = mark_prefix_bytes();
    append_vec(stream, &p);
    append_mark(stream, c.mark);
    stream.push(10u8);
    let p = original_oid_prefix_bytes();
    append_vec(stream, &p);
    append_str(stream, c.original_oid.as_str());
    stream.push(10u8);
}

fn write_commit_msg(stream: &mut Vec<u8>, c: &CommitObjectOwned)
    ensures
        final(stream)@ =~= old(stream)@ + commit_msg(*c),
{
    let p = data_prefix_bytes();
    append_vec(stream, &p);
    let msg_as_bytes = c.commit_message.as_str().as_bytes();
    let data_len: usize = msg_as_bytes.len();
    append_mark(stream, data_len as u64);
    stream.push(10u8);
    append_bytes(stream, msg_as_bytes);
    stream.push(10u8);
}

fn write_merge_lines(stream: &mut Vec<u8>, marks: &Vec<u64>)
    ensures
        final(stream)@ =~= old(stream)@ + merge_lines(marks@),
{
    let ghost base = stream@;
    let mut first_merge = true;
    let mut i: usize = 0;
    while i < marks.len()
        invariant
            0 <= i <= marks@.len(),
            first_merge == (i == 0),
            stream@ =~= base + merge_lines(marks@.subrange(0, i as int)),
        decreases marks@.len() - i,
    {
        let ghost prev = stream@;
        let m = marks[i];
        if first_merge {
            first_merge = false;
            let p = from_mark_prefix_bytes();
            append_vec(stream, &p);
        } else {
            let p = merge_mark_prefix_bytes();
            append_vec(stream, &p);
        }
        append_mark(stream, m);
        stream.push(10u8);
        proof {
            let s = marks@;
            let t = s.subrange(0, i as int + 1);
            assert(t.drop_last() =~= s.subrange(0, i as int));
            assert(t[i as int] == s[i as int]);
            assert(stream@ =~= prev + merge_line(t, i as int));
            assert(stream@ =~= base + merge_lines(t));
        }
        i = i + 1;
    }
    assert(marks@.subrange(0, marks@.len() as int) =~= marks@);
}

fn write_fileop_line(stream: &mut Vec<u8>, f: &FileOpsOwned)
    ensures
        final(stream)@ =~= old(stream)@ + fileop_line(*f),
{
    match f {
        FileOpsOwned::FileModify(mode, dataref, path) => {
            let p = modify_prefix_bytes();
            append_vec(stream, &p);
            append_str(stream, mode.as_str());
            stream.push(32u8);
            append_str(stream, dataref.as_str());
            stream.push(32u8);
            append_str(stream, path.as_str());
        },
        FileOpsOwned::FileDelete(path) => {
            let p = delete_prefix_bytes();
            append_vec(stream, &p);
            append_str(stream, path.as_str());
        },
        FileOpsOwned::FileCopy(a, b) => {
            let p = copy_prefix_bytes();
            append_vec(stream, &p);
            append_str(stream, a.as_str());
            stream.push(32u8);
            append_str(stream, b.as_str());
        },
        FileOpsOwned::FileRename(a, b) => {
            let p = rename_prefix_bytes();
            append_vec(stream, &p);
            append_str(stream, a.as_str());
            stream.push(32u8);
            append_str(stream, b.as_str());
        },
        FileOpsOwned::FileDeleteAll => {
            let p = deleteall_word_bytes();
            append_vec(stream, &p);
        },
        FileOpsOwned::NoteModify(dataref, commitish) => {
            let p = note_prefix_bytes();
            append_vec(stream, &p);
            append_str(stream, dataref.as_str());
            stream.push(32u8);
            append_str(stream, commitish.as_str());
        },
    }
    stream.push(10u8);
}

fn write_fileop_lines(stream: &mut Vec<u8>, fs: &Vec<FileOpsOwned>)
    ensures
        final(stream)@ =~= old(stream)@ + fileop_lines(fs@),
{
    let ghost base = stream@;
    let mut j: usize = 0;
    while j < fs.len()
        invariant
            0 <= j <= fs@.len(),
            stream@ =~= base + fileop_lines(fs@.subrange(0, j as int)),
        decreases fs@.len() - j,
    {
        let ghost prev = stream@;
        write_fileop_line(stream, &fs[j]);
        proof {
            let s = fs@;
            let t = s.subrange(0, j as int + 1);
            assert(t.drop_last() =~= s.subrange(0, j as int));
            assert(t.last() == s[j as int]);
            assert(stream@ =~= base + fileop_lines(t));
        }
        j = j + 1;
    }
    assert(fs@.subrange(0, fs@.len() as int) =~= fs@);
}

fn write_commit_block(stream: &mut Vec<u8>, c: &CommitObjectOwned)
    ensures
        final(stream)@ =~= old(stream)@ + commit_block(*c),
{
    let ghost base = stream@;
    write_commit_head(stream, c);
    if let Some(author) = c.get_author() {
        write_person_info(stream, author, true);
    }
    write_person_info(stream, &c.committer, false);
    assert(stream@ =~= base + commit_head(*c) + commit_people(*c));
    write_commit_msg(stream, c);
    write_merge_lines(stream, &c.merges);
    write_fileop_lines(stream, &c.fileops);
    stream.push(10u8);
}

fn write_blob_block(stream: &mut Vec<u8>, obj: &StructuredExportObject, b: &BlobObjectOwned)
    ensures
        final(stream)@ =~= old(stream)@ + blob_block(*obj, *b),
{
    let p = blob_word_bytes();
    append_vec(stream, &p);
    stream.push(10u8);
    let p = mark_prefix_bytes();
    append_vec(stream, &p);
    append_mark(stream, b.mark);
    stream.push(10u8);
    let p = original_oid_prefix_bytes();
    append_vec(stream, &p);
    append_str(stream, b.original_oid.as_str());
    stream.push(10u8);
    let p = data_prefix_bytes();
    append_vec(stream, &p);
    append_str(stream, obj.data_size.as_str());
    stream.push(10u8);
    append_vec(stream, &b.data);
    stream.push(10u8);
}

/// Write the whole structured object, in the exact import format, onto the
/// end of `stream`.
pub fn write_to_stream(stream: &mut Vec<u8>, obj: StructuredExportObject)
    ensures
        final(stream)@ =~= old(stream)@ + serialize_spec(obj),
{
    let ghost pre = stream@;
    write_header_block(stream, &obj);
    match &obj.object_type {
        StructuredObjectType::Commit(commit_obj) => {
            write_commit_block(stream, commit_obj);
        },
        StructuredObjectType::Blob(blob_obj) => {
            write_blob_block(stream, &obj, blob_obj);
        },
    }
}

/* Merge ordering and author omission, as the serializer guarantees them. */

/// The merge lines read from the front: line `i` carries `marks[i]`.
pub open spec fn merge_lines_from(marks: Seq<u64>, i: int) -> Seq<u8>
    decreases marks.len() - i,
{
    if i < 0 || i >= marks.len() {
        seq![]
    } else {
        merge_line(marks, i) + merge_lines_from(marks, i + 1)
    }
}

proof fn lemma_merge_lines_from_drop_last(marks: Seq<u64>, i: int)
    requires
        marks.len() > 0,
        0 <= i <= marks.len() - 1,
    ensures
        merge_lines_from(marks, i) =~= merge_lines_from(marks.drop_last(), i) + merge_line(
            marks,
            marks.len() - 1,
        ),
    decreases marks.len() - i,
{
    let dl = marks.drop_last();
    if i == marks.len() - 1 {
        assert(merge_lines_from(dl, i) =~= Seq::<u8>::empty());
        assert(merge_lines_from(marks, i + 1) =~= Seq::<u8>::empty());
        assert(merge_lines_from(marks, i) =~= merge_line(marks, i) + merge_lines_from(
            marks,
            i + 1,
        ));
    } else {
        lemma_merge_lines_from_drop_last(marks, i + 1);
        assert(merge_line(marks, i) =~= merge_line(dl, i));
    }
}

/// Merge ordering: the serialized merge block is the lines for parents
/// `0, 1, 2, ...` in exactly that order, the first written as `from :`,
/// every later one as `merge :`.
pub proof fn lemma_merge_ordering(marks: Seq<u64>)
    ensures
        merge_lines(marks) =~= merge_lines_from(marks, 0),
    decreases marks.len(),
{
    if marks.len() == 0 {
    } else {
        lemma_merge_ordering(marks.drop_last());
        lemma_merge_lines_from_drop_last(marks, 0);
    }
}

/// A three-parent merge block, written out: `from :` for the first
/// parent, then `merge :` for each of the other two, in that order.
pub proof fn lemma_merge_lines_three(p1: u64, p2: u64, p3: u64)
    ensures
        merge_lines(seq![p1, p2, p3]) =~= from_mark_prefix() + dec_str(p1 as nat) + newline()
            + merge_mark_prefix() + dec_str(p2 as nat) + newline() + merge_mark_prefix() + dec_str(
            p3 as nat,
        ) + newline(),
{
    let m3 = seq![p1, p2, p3];
    let m2 = m3.drop_last();
    let m1 = m2.drop_last();
    let m0 = m1.drop_last();
    assert(m2 =~= seq![p1, p2]);
    assert(m1 =~= seq![p1]);
    assert(m0 =~= Seq::<u64>::empty());
    assert(merge_lines(m0) =~= Seq::<u8>::empty());
    assert(merge_lines(m1) =~= merge_lines(m0) + merge_line(m1, 0));
    assert(merge_lines(m2) =~= merge_lines(m1) + merge_line(m2, 1));
    assert(merge_lines(m3) =~= merge_lines(m2) + merge_line(m3, 2));
}

/// Author omission: a commit without an author serializes with no author
/// line, only the committer's; one with an author carries exactly both.
pub proof fn lemma_author_omission_serialize(c: CommitObjectOwned)
    ensures
        c.author is None ==> commit_people(c) =~= person_line(c.committer, false),
        c.author matches Some(a) ==> commit_people(c) =~= person_line(a, true) + person_line(
            c.committer,
            false,
        ),
{
}

/* The sequential entry point: tokenize, then build, in stream order. */

/// Why a whole-stream parse stopped.
#[derive(Debug, Clone, Copy, PartialEq, Eq, Structural)]
pub enum ExportParseError {
    /// Malformed low-level framing.
    Tokenize(crate::unstructured_parse::TokenizeError),
    /// A raw record whose structure the builder cannot interpret.
    Parse(crate::structured_parse::ParseError),
}

/// Build every raw record in order, or stop at the first bad one.
pub open spec fn build_all(recs: Seq<Seq<crate::unstructured_parse::RawItemModel>>) -> Result<
    Seq<crate::structured_parse::ObjectModel>,
    crate::structured_parse::ParseError,
>
    decreases recs.len(),
{
    if recs.len() == 0 {
        Ok(seq![])
    } else {
        match crate::structured_parse::build_spec(recs[0]) {
            Ok(o) => match build_all(recs.drop_first()) {
                Ok(rest) => Ok(seq![o] + rest),
                Err(e) => Err(e),
            },
            Err(e) => Err(e),
        }
    }
}

/// The whole sequential parse: raw records from the bytes, then one
/// structured object per record.
pub open spec fn parse_export_spec(s: Seq<u8>) -> Result<
    Seq<crate::structured_parse::ObjectModel>,
    ExportParseError,
> {
    match crate::unstructured_parse::tokenize_from(s, 0) {
        Err(te) => Err(ExportParseError::Tokenize(te)),
        Ok(recs) => match build_all(recs) {
            Err(pe) => Err(ExportParseError::Parse(pe)),
            Ok(models) => Ok(models),
        },
    }
}

proof fn lemma_build_all_ok(
    recs: Seq<Seq<crate::unstructured_parse::RawItemModel>>,
)
    requires
        forall|k: int|
            0 <= k < recs.len() ==> crate::structured_parse::build_spec(#[trigger] recs[k]) is Ok,
    ensures
        build_all(recs) matches Ok(ms) && ms.len() == recs.len() && (forall|k: int|
            0 <= k < recs.len() ==> #[trigger] ms[k] == crate::structured_parse::build_spec(
                recs[k],
            )->Ok_0),
    decreases recs.len(),
{
    if recs.len() == 0 {
    } else {
        assert(forall|k: int|
            0 <= k < recs.drop_first().len() ==> #[trigger] recs.drop_first()[k] == recs[k + 1]);
        lemma_build_all_ok(recs.drop_first());
    }
}

proof fn lemma_build_all_err(
    recs: Seq<Seq<crate::unstructured_parse::RawItemModel>>,
    i: int,
)
    requires
        0 <= i < recs.len(),
        forall|k: int|
            0 <= k < i ==> crate::structured_parse::build_spec(#[trigger] recs[k]) is Ok,
        crate::structured_parse::build_spec(recs[i]) is Err,
    ensures
        build_all(recs) == Err::<
            Seq<crate::structured_parse::ObjectModel>,
            crate::structured_parse::ParseError,
        >(crate::structured_parse::build_spec(recs[i])->Err_0),
    decreases recs.len(),
{
    if i == 0 {
    } else {
        assert(forall|k: int|
            0 <= k < recs.drop_first().len() ==> #[trigger] recs.drop_first()[k] == recs[k + 1]);
        lemma_build_all_err(recs.drop_first(), i - 1);
    }
}

proof fn lemma_build_all_ok_inv(
    recs: Seq<Seq<crate::unstructured_parse::RawItemModel>>,
)
    requires
        build_all(recs) is Ok,
    ensures
        build_all(recs)->Ok_0.len() == recs.len(),
        forall|k: int|
            0 <= k < recs.len() ==> crate::structured_parse::build_spec(#[trigger] recs[k]) is Ok,
        forall|k: int|
            0 <= k < recs.len() ==> #[trigger] build_all(recs)->Ok_0[k]
                == crate::structured_parse::build_spec(recs[k])->Ok_0,
    decreases recs.len(),
{
    if recs.len() == 0 {
    } else {
        lemma_build_all_ok_inv(recs.drop_first());
        assert(forall|k: int|
            0 <= k < recs.drop_first().len() ==> #[trigger] recs.drop_first()[k] == recs[k + 1]);
        let ms = build_all(recs)->Ok_0;
        let rest = build_all(recs.drop_first())->Ok_0;
        assert(forall|k: int| 0 <= k < rest.len() ==> #[trigger] ms[k + 1] == rest[k]);
        assert forall|k: int|
            0 <= k < recs.len() implies crate::structured_parse::build_spec(
            #[trigger] recs[k],
        ) is Ok by {
            if k > 0 {
                assert(recs.drop_first()[k - 1] == recs[k]);
            }
        }
        assert forall|k: int| 0 <= k < recs.len() implies #[trigger] ms[k]
            == crate::structured_parse::build_spec(recs[k])->Ok_0 by {
            if k == 0 {
                assert(ms[0] == crate::structured_parse::build_spec(recs[0])->Ok_0);
            } else {
                assert(recs.drop_first()[k - 1] == recs[k]);
                assert(ms[k] == rest[k - 1]);
            }
        }
    }
}

/// Author omission at any stream position: if record `k` of a parsed
/// stream carries no author line, the `k`-th object model is either a
/// blob or a commit without an author.
pub proof fn lemma_no_author_at_record(s: Seq<u8>, k: int)
    requires
        0 <= k,
    ensures
        crate::unstructured_parse::tokenize_from(s, 0) matches Ok(recs) ==> ((k < recs.len()
            && crate::structured_parse::has_no_author_line(recs[k])) ==> (parse_export_spec(s)
            matches Ok(ms) ==> (ms[k].object_type
            matches crate::structured_parse::ObjectTypeModel::Commit(c) ==> c.author is None))),
{
    match crate::unstructured_parse::tokenize_from(s, 0) {
        Ok(recs) => {
            if k < recs.len() && crate::structured_parse::has_no_author_line(recs[k])
                && parse_export_spec(s) is Ok {
                lemma_build_all_ok_inv(recs);
                crate::structured_parse::lemma_no_author_build(recs[k]);
            }
        },
        Err(e) => {},
    }
}

/// Parse a whole export stream into its structured objects, in stream
/// order, or report the first framing or structure error.
///
/// This is all-or-nothing by choice: on an error, no objects are handed
/// back, not even those before the failing record.  A caller that wants
/// the leading objects of a failing stream cuts and builds record by
/// record instead, through `tokenize_next_record` and
/// `parse_into_structured_object`, as the concurrent driver does.
pub fn parse_git_filter_export(input: &[u8]) -> (r: Result<
    Vec<StructuredExportObject>,
    ExportParseError,
>)
    requires
        input@.len() < usize::MAX,
    ensures
        ({
            let m = parse_export_spec(input@);
            match r {
                Ok(objs) => m matches Ok(ms) && objs@.len() == ms.len() && (forall|k: int|
                    0 <= k < ms.len() ==> crate::structured_parse::object_matches(
                        #[trigger] objs@[k],
                        ms[k],
                    )),
                Err(e) => m matches Err(ee) && e == ee,
            }
        }),
{
    let recs = match crate::unstructured_parse::tokenize_stream(input) {
        Ok(recs) => recs,
        Err(te) => {
            return Err(ExportParseError::Tokenize(te));
        },
    };
    let ghost recsv = crate::unstructured_parse::tokenize_from(input@, 0)->Ok_0;
    let n: usize = recs.len();
    let mut rem = recs;
    let mut out: Vec<StructuredExportObject> = Vec::new();
    let mut i: usize = 0;
    while i < n
        invariant
            0 <= i <= n,
            recsv == crate::unstructured_parse::tokenize_from(input@, 0)->Ok_0,
            crate::unstructured_parse::tokenize_from(input@, 0) is Ok,
            n == recsv.len(),
            rem@.len() == n - i,
            forall|k: int|
                0 <= k < n - i ==> crate::unstructured_parse::record_view(#[trigger] rem@[k])
                    =~= recsv[k + i],
            out@.len() == i,
            forall|k: int|
                0 <= k < i ==> crate::structured_parse::build_spec(#[trigger] recsv[k]) is Ok,
            forall|k: int|
                0 <= k < i ==> crate::structured_parse::object_matches(
                    #[trigger] out@[k],
                    crate::structured_parse::build_spec(recsv[k])->Ok_0,
                ),
        decreases n - i,
    {
        let rec = rem.remove(0);
        proof {
            assert(crate::unstructured_parse::record_view(rec) =~= recsv[i as int]);
        }
        match crate::structured_parse::parse_into_structured_object(rec) {
            Ok(obj) => {
                out.push(obj);
            },
            Err(pe) => {
                proof {
                    lemma_build_all_err(recsv, i as int);
                }
                return Err(ExportParseError::Parse(pe));
            },
        }
        i = i + 1;
    }
    proof {
        lemma_build_all_ok(recsv);
    }
    Ok(out)
}

/* The concurrent driver's configuration. */

/// Relies on `num_cpus::get`: the number of CPUs available to this
/// process, documented to be at least 1.  What it returns depends on the
/// machine, so nothing more is claimed.
#[verifier::external_body]
fn cpu_count() -> (r: usize)
    ensures
        r >= 1,
{
    num_cpus::get()
}

/// How many builder workers a machine with `cpus` CPUs gets: all of
/// them but the two already occupied by the reader and the reassembly
/// stage, and at least one.
pub fn workers_for(cpus: usize) -> (r: usize)
    ensures
        cpus <= 2 ==> r == 1,
        cpus > 2 ==> r == cpus - 2,
{
    if cpus <= 2 {
        1
    } else {
        cpus - 2
    }
}

/// How many builder workers the driver runs: an explicit request is taken
/// as given; otherwise `workers_for` applied to the CPUs available.
pub fn resolve_thread_count(n_parsing_threads: Option<usize>) -> (r: usize)
    ensures
        n_parsing_threads matches Some(n) ==> r == n,
        n_parsing_threads is None ==> r >= 1,
{
    match n_parsing_threads {
        Some(n) => n,
        None => workers_for(cpu_count()),
    }
}

/* The reassembly stage of the concurrent pipeline: buffer objects that
 * arrive out of order, release them in strict stream order. */

/// One parsed object waiting in the reassembly buffer, tagged with its
/// zero-based position in the original stream.  Ordered by that position.
pub struct WaitObj {
    pub index: usize,
    pub obj: StructuredExportObject,
}

impl PartialEq for WaitObj {
    fn eq(&self, other: &Self) -> (r: bool)
        ensures
            r == (self.index == other.index),
    {
        self.index == other.index
    }
}

impl vstd::std_specs::cmp::PartialEqSpecImpl for WaitObj {
    open spec fn obeys_eq_spec() -> bool {
        true
    }

    open spec fn eq_spec(&self, other: &Self) -> bool {
        self.index == other.index
    }
}

impl Eq for WaitObj {

}

impl PartialOrd for WaitObj {
    fn partial_cmp(&self, other: &Self) -> (r: Option<core::cmp::Ordering>)
    {
        if self.index < other.index {
            Some(core::cmp::Ordering::Less)
        } else if self.index == other.index {
            Some(core::cmp::Ordering::Equal)
        } else {
            Some(core::cmp::Ordering::Greater)
        }
    }
}

impl vstd::std_specs::cmp::PartialOrdSpecImpl for WaitObj {
    open spec fn obeys_partial_cmp_spec() -> bool {
        true
    }

    open spec fn partial_cmp_spec(&self, other: &Self) -> Option<core::cmp::Ordering> {
        if self.index < other.index {
            Some(core::cmp::Ordering::Less)
        } else if self.index == other.index {
            Some(core::cmp::Ordering::Equal)
        } else {
            Some(core::cmp::Ordering::Greater)
        }
    }
}

/// Some buffered entry carries stream position `i`.
pub open spec fn has_index(w: Seq<WaitObj>, i: int) -> bool {
    exists|k: int| 0 <= k < w.len() && w[k].index == i
}

/// First buffer slot at or after `from` holding stream position `i`, or
/// the buffer's length.
pub open spec fn find_from(w: Seq<WaitObj>, i: int, from: int) -> int
    decreases w.len() - from,
{
    if from < 0 {
        0
    } else if from >= w.len() {
        w.len() as int
    } else if w[from].index == i {
        from
    } else {
        find_from(w, i, from + 1)
    }
}

pub proof fn lemma_find_from(w: Seq<WaitObj>, i: int, from: int)
    requires
        0 <= from <= w.len(),
    ensures
        from <= find_from(w, i, from) <= w.len(),
        forall|k: int| from <= k < find_from(w, i, from) ==> w[k].index != i,
        find_from(w, i, from) < w.len() ==> w[find_from(w, i, from)].index == i,
    decreases w.len() - from,
{
    if from < w.len() && w[from].index != i {
        lemma_find_from(w, i, from + 1);
    }
}

pub proof fn lemma_find_has(w: Seq<WaitObj>, i: int)
    ensures
        has_index(w, i) <==> find_from(w, i, 0) < w.len(),
{
    lemma_find_from(w, i, 0);
    if has_index(w, i) {
        let k = choose|k: int| 0 <= k < w.len() && w[k].index == i;
        assert(!(k < find_from(w, i, 0)));
    }
}

/// The object buffered under stream position `i`.
pub open spec fn obj_at(w: Seq<WaitObj>, i: int) -> StructuredExportObject {
    w[find_from(w, i, 0)].obj
}

/// No stream position occurs twice in the buffer.
pub open spec fn distinct_indices(w: Seq<WaitObj>) -> bool {
    forall|k1: int, k2: int|
        0 <= k1 < k2 < w.len() ==> #[trigger] w[k1].index != #[trigger] w[k2].index
}

/// Buffer well-formedness relative to the next expected position: every
/// buffered position is distinct, not yet due, and leaves room to count.
pub open spec fn rb_wf_seq(w: Seq<WaitObj>, expected: int) -> bool {
    &&& distinct_indices(w)
    &&& forall|k: int| 0 <= k < w.len() ==> (#[trigger] w[k].index) >= expected
    &&& forall|k: int| 0 <= k < w.len() ==> (#[trigger] w[k].index) < usize::MAX
}

/// A reassembly transition: the new expected position, what remains
/// buffered, and what was released, in order.
pub struct RbStep {
    pub expected: int,
    pub waiting: Seq<WaitObj>,
    pub released: Seq<StructuredExportObject>,
}

/// Release the consecutive run starting at `expected` out of the buffer.
pub open spec fn drain_spec(expected: int, w: Seq<WaitObj>) -> RbStep
    decreases w.len(),
    via drain_spec_decreases
{
    let k = find_from(w, expected, 0);
    if k == w.len() {
        RbStep { expected, waiting: w, released: seq![] }
    } else {
        let r = drain_spec(expected + 1, w.remove(k));
        RbStep { expected: r.expected, waiting: r.waiting, released: seq![w[k].obj] + r.released }
    }
}

#[via_fn]
proof fn drain_spec_decreases(expected: int, w: Seq<WaitObj>) {
    lemma_find_from(w, expected, 0);
}

/// What one arrival does to the buffer: the due object opens a release
/// run; any other object is buffered.
pub open spec fn accept_spec(
    expected: int,
    w: Seq<WaitObj>,
    index: usize,
    obj: StructuredExportObject,
) -> RbStep {
    if index == expected {
        let r = drain_spec(expected + 1, w);
        RbStep { expected: r.expected, waiting: r.waiting, released: seq![obj] + r.released }
    } else {
        RbStep { expected, waiting: w.push(WaitObj { index, obj }), released: seq![] }
    }
}

/// The reassembly buffer: holds parsed objects that arrived ahead of
/// their turn, and releases them exactly in stream order.
pub struct ReorderBuffer {
    expected: usize,
    waiting: Vec<WaitObj>,
}

impl ReorderBuffer {
    /// The next stream position the caller is owed.
    pub closed spec fn expected_index(&self) -> int {
        self.expected as int
    }

    /// The entries buffered, ahead of their turn.
    pub closed spec fn waiting_view(&self) -> Seq<WaitObj> {
        self.waiting@
    }

    pub open spec fn wf(&self) -> bool {
        rb_wf_seq(self.waiting_view(), self.expected_index())
    }

    pub fn new() -> (r: Self)
        ensures
            r.wf(),
            r.expected_index() == 0,
            r.waiting_view() =~= Seq::<WaitObj>::empty(),
    {
        ReorderBuffer { expected: 0, waiting: Vec::new() }
    }

    /// Take one `(index, object)` arrival.  Returns every object that is
    /// now due, in stream order; objects ahead of their turn stay inside.
    pub fn accept(&mut self, index: usize, obj: StructuredExportObject) -> (out: Vec<
        StructuredExportObject,
    >)
        requires
            old(self).wf(),
            index >= old(self).expected_index(),
            !has_index(old(self).waiting_view(), index as int),
            index < usize::MAX,
        ensures
            ({
                let step = accept_spec(
                    old(self).expected_index(),
                    old(self).waiting_view(),
                    index,
                    obj,
                );
                &&& final(self).expected_index() == step.expected
                &&& final(self).waiting_view() =~= step.waiting
                &&& out@ =~= step.released
                &&& final(self).wf()
            }),
    {
        let ghost step = accept_spec(self.expected as int, self.waiting@, index, obj);
        if index != self.expected {
            self.waiting.push(WaitObj { index, obj });
            return Vec::new();
        }
        let mut out: Vec<StructuredExportObject> = Vec::new();
        out.push(obj);
        self.expected = self.expected + 1;
        proof {
            let d = drain_spec(self.expected as int, self.waiting@);
            assert(step.expected == d.expected);
            assert(step.waiting =~= d.waiting);
            assert(step.released =~= out@ + d.released);
        }
        loop
            invariant
                step == accept_spec(
                    old(self).expected_index(),
                    old(self).waiting_view(),
                    index,
                    obj,
                ),
                rb_wf_seq(self.waiting@, self.expected as int),
                self.expected >= 1,
                out@.len() >= 1,
                ({
                    let d = drain_spec(self.expected as int, self.waiting@);
                    &&& step.expected == d.expected
                    &&& step.waiting =~= d.waiting
                    &&& step.released =~= out@ + d.released
                }),
            decreases self.waiting@.len(),
        {
            let k = self.find_waiting(self.expected);
            proof {
                lemma_find_from(self.waiting@, self.expected as int, 0);
            }
            if k == self.waiting.len() {
                proof {
                    let d = drain_spec(self.expected as int, self.waiting@);
                    assert(d.released =~= Seq::<StructuredExportObject>::empty());
                    assert(step.released =~= out@ + d.released);
                    assert(out@ + Seq::<StructuredExportObject>::empty() =~= out@);
                }
                return out;
            }
            let entry = self.waiting.remove(k);
            out.push(entry.obj);
            self.expected = self.expected + 1;
        }
    }

    /// The next stream position due, as a runtime value: what a caller
    /// tests before handing in an arrival.
    pub fn next_expected(&self) -> (r: usize)
        ensures
            r == self.expected_index(),
    {
        self.expected
    }

    /// Whether some entry is already buffered under stream position
    /// `idx`: what a caller tests before handing in an arrival.
    pub fn holds_index(&self, idx: usize) -> (r: bool)
        ensures
            r == has_index(self.waiting_view(), idx as int),
    {
        let k = self.find_waiting(idx);
        proof {
            lemma_find_has(self.waiting@, idx as int);
        }
        k < self.waiting.len()
    }

    /// First buffer slot holding stream position `idx`, or the length.
    fn find_waiting(&self, idx: usize) -> (k: usize)
        ensures
            k == find_from(self.waiting@, idx as int, 0),
    {
        let mut k: usize = 0;
        while k < self.waiting.len() && self.waiting[k].index != idx
            invariant
                0 <= k <= self.waiting@.len(),
                find_from(self.waiting@, idx as int, 0) == find_from(
                    self.waiting@,
                    idx as int,
                    k as int,
                ),
            decreases self.waiting@.len() - k,
        {
            k = k + 1;
        }
        proof {
            lemma_find_from(self.waiting@, idx as int, 0);
        }
        k
    }
}

/* Ordering theorems for the reassembly buffer.
 *
 * The driver feeds the buffer one arrival per raw record, in whatever
 * order the workers finish.  The lemmas below show that whatever that
 * order is, the buffer releases exactly the stream's objects, in stream
 * order: released output is always a prefix of the stream, and once every
 * record has arrived, it is the whole stream. */

/// Every buffered entry is an object of the stream, filed under its own
/// position.
pub open spec fn waiting_consistent(w: Seq<WaitObj>, objs: Seq<StructuredExportObject>) -> bool {
    forall|i: int|
        #[trigger] has_index(w, i) ==> 0 <= i < objs.len() && obj_at(w, i) == objs[i]
}

/// Some arrival in `events` carries stream position `i`.
pub open spec fn in_events(events: Seq<(usize, StructuredExportObject)>, i: int) -> bool {
    exists|k: int| 0 <= k < events.len() && events[k].0 == i
}

/// One arrival per stream position, each carrying the stream's object for
/// its position, no position twice: what any full set of workers hands
/// the reassembly stage, in some scheduling order.
pub open spec fn arrival_of(
    events: Seq<(usize, StructuredExportObject)>,
    objs: Seq<StructuredExportObject>,
) -> bool {
    &&& events.len() == objs.len()
    &&& forall|k: int|
        0 <= k < events.len() ==> 0 <= (#[trigger] events[k]).0 < objs.len()
    &&& forall|k: int|
        0 <= k < events.len() ==> (#[trigger] events[k]).1 == objs[events[k].0 as int]
    &&& forall|k1: int, k2: int|
        0 <= k1 < k2 < events.len() ==> (#[trigger] events[k1]).0 != (#[trigger] events[k2]).0
}

/// Feed a sequence of arrivals through the buffer, collecting everything
/// released, in order.
pub open spec fn run_events(
    expected: int,
    w: Seq<WaitObj>,
    events: Seq<(usize, StructuredExportObject)>,
) -> RbStep
    decreases events.len(),
{
    if events.len() == 0 {
        RbStep { expected, waiting: w, released: seq![] }
    } else {
        let s = accept_spec(expected, w, events[0].0, events[0].1);
        let r = run_events(s.expected, s.waiting, events.drop_first());
        RbStep { expected: r.expected, waiting: r.waiting, released: s.released + r.released }
    }
}

proof fn lemma_obj_at_witness(w: Seq<WaitObj>, k: int)
    requires
        distinct_indices(w),
        0 <= k < w.len(),
    ensures
        has_index(w, w[k].index as int),
        obj_at(w, w[k].index as int) == w[k].obj,
{
    let i = w[k].index as int;
    lemma_find_from(w, i, 0);
    let p = find_from(w, i, 0);
    assert(!(k < p));
    assert(p < w.len());
    assert(p == k) by {
        if p < k {
            assert(w[p].index == w[k].index);
        }
    }
}

proof fn lemma_remove_has(w: Seq<WaitObj>, k: int)
    requires
        distinct_indices(w),
        0 <= k < w.len(),
    ensures
        distinct_indices(w.remove(k)),
        forall|i: int|
            #[trigger] has_index(w.remove(k), i) <==> (has_index(w, i) && i != w[k].index),
        forall|i: int|
            #[trigger] has_index(w.remove(k), i) ==> obj_at(w.remove(k), i) == obj_at(w, i),
{
    let w2 = w.remove(k);
    w.remove_ensures(k);
    assert(distinct_indices(w2)) by {
        assert forall|j1: int, j2: int| 0 <= j1 < j2 < w2.len() implies #[trigger] w2[j1].index
            != #[trigger] w2[j2].index by {
            let o1: int = if j1 < k {
                j1
            } else {
                j1 + 1
            };
            let o2: int = if j2 < k {
                j2
            } else {
                j2 + 1
            };
            assert(w2[j1] == w[o1] && w2[j2] == w[o2]);
        }
    }
    assert forall|i: int| #[trigger] has_index(w2, i) implies (has_index(w, i) && i != w[k].index)
        by {
        let j = choose|j: int| 0 <= j < w2.len() && w2[j].index == i;
        let o: int = if j < k {
            j
        } else {
            j + 1
        };
        assert(w2[j] == w[o]);
        assert(has_index(w, i));
        if i == w[k].index {
            assert(w[o].index == w[k].index && o != k);
        }
    }
    assert forall|i: int| has_index(w, i) && i != w[k].index implies #[trigger] has_index(w2, i)
        by {
        let p = choose|p: int| 0 <= p < w.len() && w[p].index == i;
        let j: int = if p < k {
            p
        } else {
            p - 1
        };
        assert(w2[j] == w[p]);
    }
    assert forall|i: int| #[trigger] has_index(w2, i) implies obj_at(w2, i) == obj_at(w, i) by {
        let j = choose|j: int| 0 <= j < w2.len() && w2[j].index == i;
        let o: int = if j < k {
            j
        } else {
            j + 1
        };
        assert(w2[j] == w[o]);
        lemma_obj_at_witness(w2, j);
        lemma_obj_at_witness(w, o);
    }
}

proof fn lemma_drain_char(expected: int, w: Seq<WaitObj>)
    requires
        rb_wf_seq(w, expected),
    ensures
        ({
            let d = drain_spec(expected, w);
            &&& expected <= d.expected <= expected + w.len()
            &&& forall|i: int| expected <= i < d.expected ==> #[trigger] has_index(w, i)
            &&& !has_index(w, d.expected)
            &&& d.released.len() == d.expected - expected
            &&& forall|j: int|
                0 <= j < d.released.len() ==> #[trigger] d.released[j] == obj_at(w, expected + j)
            &&& rb_wf_seq(d.waiting, d.expected)
            &&& forall|i: int|
                #[trigger] has_index(d.waiting, i) <==> (has_index(w, i) && i >= d.expected)
            &&& forall|i: int|
                #[trigger] has_index(d.waiting, i) ==> obj_at(d.waiting, i) == obj_at(w, i)
        }),
    decreases w.len(),
{
    let d = drain_spec(expected, w);
    lemma_find_from(w, expected, 0);
    lemma_find_has(w, expected);
    let k = find_from(w, expected, 0);
    if k == w.len() {
        assert(!has_index(w, d.expected));
    } else {
        assert(w[k].index == expected);
        let w2 = w.remove(k);
        w.remove_ensures(k);
        lemma_remove_has(w, k);
        assert(rb_wf_seq(w2, expected + 1)) by {
            assert forall|j: int| 0 <= j < w2.len() implies (#[trigger] w2[j].index) >= expected
                + 1 && w2[j].index < usize::MAX by {
                let o: int = if j < k {
                    j
                } else {
                    j + 1
                };
                assert(w2[j] == w[o]);
                lemma_obj_at_witness(w2, j);
                assert(has_index(w2, w2[j].index as int));
                assert(w2[j].index != expected);
            }
        }
        lemma_drain_char(expected + 1, w2);
        let d2 = drain_spec(expected + 1, w2);
        lemma_obj_at_witness(w, k);
        assert(has_index(w, expected));
        assert forall|i: int| expected <= i < d.expected implies #[trigger] has_index(w, i) by {
            if i > expected {
                assert(has_index(w2, i));
            }
        }
        assert(!has_index(w, d.expected)) by {
            assert(d.expected == d2.expected);
            assert(!has_index(w2, d2.expected));
            assert(d2.expected > expected);
            if has_index(w, d2.expected) {
                assert(has_index(w2, d2.expected));
            }
        }
        assert forall|j: int| 0 <= j < d.released.len() implies #[trigger] d.released[j] == obj_at(
            w,
            expected + j,
        ) by {
            if j == 0 {
                assert(d.released[0] == w[k].obj);
            } else {
                assert(d.released[j] == d2.released[j - 1]);
                assert(d2.released[j - 1] == obj_at(w2, expected + j));
                assert(has_index(w2, expected + j));
            }
        }
        assert forall|i: int| #[trigger] has_index(d.waiting, i) implies obj_at(d.waiting, i)
            == obj_at(w, i) by {
            assert(has_index(w2, i));
        }
    }
}

proof fn lemma_accept_char(
    objs: Seq<StructuredExportObject>,
    expected: int,
    w: Seq<WaitObj>,
    idx: usize,
    obj: StructuredExportObject,
)
    requires
        0 <= expected <= objs.len(),
        objs.len() <= usize::MAX,
        rb_wf_seq(w, expected),
        !has_index(w, expected),
        waiting_consistent(w, objs),
        expected <= idx < objs.len(),
        obj == objs[idx as int],
        !has_index(w, idx as int),
    ensures
        ({
            let s = accept_spec(expected, w, idx, obj);
            &&& expected <= s.expected <= objs.len()
            &&& s.released =~= objs.subrange(expected, s.expected)
            &&& rb_wf_seq(s.waiting, s.expected)
            &&& !has_index(s.waiting, s.expected)
            &&& waiting_consistent(s.waiting, objs)
            &&& forall|i: int|
                #[trigger] has_index(s.waiting, i) <==> ((has_index(w, i) || i == idx) && i
                    >= s.expected)
            &&& forall|i: int|
                expected <= i < s.expected ==> #[trigger] has_index(w, i) || i == idx
        }),
{
    let s = accept_spec(expected, w, idx, obj);
    if idx == expected {
        assert(rb_wf_seq(w, expected + 1)) by {
            assert forall|j: int| 0 <= j < w.len() implies (#[trigger] w[j].index) >= expected + 1
                by {
                lemma_obj_at_witness(w, j);
                assert(w[j].index != expected);
            }
        }
        lemma_drain_char(expected + 1, w);
        let d = drain_spec(expected + 1, w);
        assert(s.expected <= objs.len()) by {
            if d.expected > objs.len() {
                assert(has_index(w, objs.len() as int));
            }
        }
        assert(s.released =~= objs.subrange(expected, s.expected)) by {
            assert(s.released.len() == s.expected - expected);
            assert forall|j: int| 0 <= j < s.released.len() implies #[trigger] s.released[j]
                == objs[expected + j] by {
                if j == 0 {
                } else {
                    assert(s.released[j] == d.released[j - 1]);
                    assert(d.released[j - 1] == obj_at(w, expected + j));
                    assert(has_index(w, expected + j));
                }
            }
        }
        assert forall|i: int| expected <= i < s.expected implies #[trigger] has_index(w, i) || i
            == idx by {
            if i > expected {
                assert(has_index(w, i));
            }
        }
    } else {
        let w2 = w.push(WaitObj { index: idx, obj });
        assert(s.waiting == w2);
        assert forall|i: int| #[trigger] has_index(w2, i) implies (has_index(w, i) || i == idx)
            by {
            let j = choose|j: int| 0 <= j < w2.len() && w2[j].index == i;
            if j < w.len() {
                assert(w2[j] == w[j]);
            } else {
                assert(w2[j] == (WaitObj { index: idx, obj }));
            }
        }
        assert forall|i: int| has_index(w, i) implies #[trigger] has_index(w2, i) by {
            let j = choose|j: int| 0 <= j < w.len() && w[j].index == i;
            assert(w2[j] == w[j]);
        }
        assert(has_index(w2, idx as int)) by {
            assert(w2[w.len() as int].index == idx);
        }
        assert(distinct_indices(w2)) by {
            assert forall|k1: int, k2: int| 0 <= k1 < k2 < w2.len() implies #[trigger] w2[k1].index
                != #[trigger] w2[k2].index by {
                if k2 == w.len() {
                    assert(w2[k1] == w[k1]);
                    lemma_obj_at_witness(w, k1);
                    assert(has_index(w, w[k1].index as int));
                } else {
                    assert(w2[k1] == w[k1] && w2[k2] == w[k2]);
                }
            }
        }
        assert(s.released =~= objs.subrange(expected, expected));
        assert(waiting_consistent(w2, objs)) by {
            assert forall|i: int| #[trigger] has_index(w2, i) implies 0 <= i < objs.len()
                && obj_at(w2, i) == objs[i] by {
                let j = choose|j: int| 0 <= j < w2.len() && w2[j].index == i;
                lemma_obj_at_witness(w2, j);
                if j < w.len() {
                    assert(w2[j] == w[j]);
                    lemma_obj_at_witness(w, j);
                    assert(has_index(w, i));
                } else {
                    assert(w2[j] == (WaitObj { index: idx, obj }));
                }
            }
        }
    }
}

/// The buffer invariant carried through any arrival schedule: everything
/// released so far is exactly the stream's prefix up to the expected
/// position, and nothing that arrived has been lost.
pub proof fn lemma_run_events(
    objs: Seq<StructuredExportObject>,
    events: Seq<(usize, StructuredExportObject)>,
    expected: int,
    w: Seq<WaitObj>,
)
    requires
        0 <= expected <= objs.len(),
        objs.len() <= usize::MAX,
        rb_wf_seq(w, expected),
        !has_index(w, expected),
        waiting_consistent(w, objs),
        forall|k: int|
            0 <= k < events.len() ==> expected <= (#[trigger] events[k]).0 < objs.len(),
        forall|k: int|
            0 <= k < events.len() ==> (#[trigger] events[k]).1 == objs[events[k].0 as int],
        forall|k1: int, k2: int|
            0 <= k1 < k2 < events.len() ==> (#[trigger] events[k1]).0 != (
            #[trigger] events[k2]).0,
        forall|k: int| 0 <= k < events.len() ==> !has_index(w, (#[trigger] events[k]).0 as int),
    ensures
        ({
            let r = run_events(expected, w, events);
            &&& expected <= r.expected <= objs.len()
            &&& r.released =~= objs.subrange(expected, r.expected)
            &&& rb_wf_seq(r.waiting, r.expected)
            &&& !has_index(r.waiting, r.expected)
            &&& waiting_consistent(r.waiting, objs)
            &&& forall|i: int|
                expected <= i < objs.len() && (has_index(w, i) || in_events(events, i)) ==> (i
                    < r.expected || #[trigger] has_index(r.waiting, i))
        }),
    decreases events.len(),
{
    let r = run_events(expected, w, events);
    if events.len() == 0 {
        assert(r.released =~= objs.subrange(expected, expected));
    } else {
        let idx = events[0].0;
        let obj = events[0].1;
        lemma_accept_char(objs, expected, w, idx, obj);
        let s = accept_spec(expected, w, idx, obj);
        let rest = events.drop_first();
        assert forall|k: int| 0 <= k < rest.len() implies s.expected <= (
        #[trigger] rest[k]).0 < objs.len() && rest[k].1 == objs[rest[k].0 as int]
            && !has_index(s.waiting, rest[k].0 as int) by {
            assert(rest[k] == events[k + 1]);
            let i = rest[k].0 as int;
            assert(i != idx);
            assert(!has_index(w, i));
            if i < s.expected {
                assert(has_index(w, i) || i == idx);
            }
            if has_index(s.waiting, i) {
                assert(has_index(w, i) || i == idx);
            }
        }
        assert forall|k1: int, k2: int| 0 <= k1 < k2 < rest.len() implies (
        #[trigger] rest[k1]).0 != (#[trigger] rest[k2]).0 by {
            assert(rest[k1] == events[k1 + 1] && rest[k2] == events[k2 + 1]);
        }
        lemma_run_events(objs, rest, s.expected, s.waiting);
        let r2 = run_events(s.expected, s.waiting, rest);
        assert(r.released =~= objs.subrange(expected, r2.expected)) by {
            assert(r.released == s.released + r2.released);
            assert(s.released =~= objs.subrange(expected, s.expected));
            assert(r2.released =~= objs.subrange(s.expected, r2.expected));
            assert(objs.subrange(expected, s.expected) + objs.subrange(s.expected, r2.expected)
                =~= objs.subrange(expected, r2.expected));
        }
        assert forall|i: int|
            expected <= i < objs.len() && (has_index(w, i) || in_events(events, i)) implies (i
            < r.expected || #[trigger] has_index(r.waiting, i)) by {
            if has_index(w, i) || i == idx {
                if i >= s.expected {
                    assert(has_index(s.waiting, i));
                    assert(i < r2.expected || has_index(r2.waiting, i));
                } else {
                    assert(i < r.expected) by {
                        assert(s.expected <= r2.expected);
                    }
                }
            } else {
                assert(in_events(events, i));
                let k = choose|k: int| 0 <= k < events.len() && events[k].0 == i;
                assert(k != 0);
                assert(rest[k - 1] == events[k]);
                assert(in_events(rest, i));
                assert(i < r2.expected || has_index(r2.waiting, i));
            }
        }
    }
}

/// Order preservation: for any stream of objects and any order in which
/// the workers' results arrive, one arrival per stream position, the
/// reassembly buffer releases exactly the stream's objects, in stream
/// order, and ends empty.
pub proof fn lemma_order_preservation(
    objs: Seq<StructuredExportObject>,
    events: Seq<(usize, StructuredExportObject)>,
)
    requires
        arrival_of(events, objs),
        objs.len() <= usize::MAX,
    ensures
        ({
            let r = run_events(0, Seq::<WaitObj>::empty(), events);
            &&& r.released =~= objs
            &&& r.expected == objs.len()
            &&& r.waiting =~= Seq::<WaitObj>::empty()
        }),
{
    broadcast use vstd::seq_lib::seq_to_set_is_finite;

    let w0 = Seq::<WaitObj>::empty();
    assert(!has_index(w0, 0));
    lemma_run_events(objs, events, 0, w0);
    let r = run_events(0, w0, events);
    let idxs = Seq::<int>::new(events.len(), |k: int| events[k].0 as int);
    assert(idxs.no_duplicates()) by {
        assert forall|k1: int, k2: int|
            0 <= k1 < idxs.len() && 0 <= k2 < idxs.len() && k1 != k2 implies idxs[k1] != idxs[k2]
            by {
            if k1 < k2 {
                assert(events[k1].0 != events[k2].0);
            } else {
                assert(events[k2].0 != events[k1].0);
            }
        }
    }
    idxs.unique_seq_to_set();
    let range = vstd::set_lib::set_int_range(0, objs.len() as int);
    vstd::set_lib::lemma_int_range(0, objs.len() as int);
    assert(idxs.to_set().subset_of(range)) by {
        assert forall|x: int| idxs.to_set().contains(x) implies range.contains(x) by {
            let k = choose|k: int| 0 <= k < idxs.len() && idxs[k] == x;
            assert(0 <= events[k].0 < objs.len());
        }
    }
    vstd::set_lib::lemma_subset_equality(idxs.to_set(), range);
    assert forall|i: int| 0 <= i < objs.len() implies in_events(events, i) by {
        assert(range.contains(i));
        assert(idxs.to_set().contains(i));
        let k = choose|k: int| 0 <= k < idxs.len() && idxs[k] == i;
        assert(events[k].0 == i);
    }
    assert(r.expected == objs.len()) by {
        if r.expected < objs.len() {
            assert(in_events(events, r.expected));
            assert(r.expected < r.expected || has_index(r.waiting, r.expected));
        }
    }
    assert(r.waiting =~= Seq::<WaitObj>::empty()) by {
        if r.waiting.len() > 0 {
            lemma_obj_at_witness_front(r.waiting);
            assert(has_index(r.waiting, r.waiting[0].index as int));
            assert(r.waiting[0].index as int >= r.expected);
            assert((r.waiting[0].index as int) < objs.len());
        }
    }
    assert(r.released =~= objs) by {
        assert(objs.subrange(0, objs.len() as int) =~= objs);
    }
}

proof fn lemma_obj_at_witness_front(w: Seq<WaitObj>)
    requires
        w.len() > 0,
    ensures
        has_index(w, w[0].index as int),
{
    assert(0 <= 0 < w.len() && w[0].index == w[0].index as int);
}

/// Parallelism invariance: two full arrival schedules of the same stream
/// release the same objects in the same order, whatever the scheduling.
pub proof fn lemma_parallelism_invariance(
    objs: Seq<StructuredExportObject>,
    events1: Seq<(usize, StructuredExportObject)>,
    events2: Seq<(usize, StructuredExportObject)>,
)
    requires
        arrival_of(events1, objs),
        arrival_of(events2, objs),
        objs.len() <= usize::MAX,
    ensures
        run_events(0, Seq::<WaitObj>::empty(), events1).released =~= run_events(
            0,
            Seq::<WaitObj>::empty(),
            events2,
        ).released,
{
    lemma_order_preservation(objs, events1);
    lemma_order_preservation(objs, events2);
}

/// Fail-fast: after any prefix of the arrivals, what has been released is
/// exactly a prefix of the stream, in order.  A driver that stops at the
/// object in position `k` has therefore released exactly positions
/// `0..=k`, and nothing past `k` is ever handed out.
pub proof fn lemma_fail_fast_prefix(
    objs: Seq<StructuredExportObject>,
    events: Seq<(usize, StructuredExportObject)>,
    t: int,
)
    requires
        arrival_of(events, objs),
        objs.len() <= usize::MAX,
        0 <= t <= events.len(),
    ensures
        ({
            let r = run_events(0, Seq::<WaitObj>::empty(), events.subrange(0, t));
            &&& 0 <= r.expected <= objs.len()
            &&& r.released =~= objs.subrange(0, r.expected)
        }),
{
    let pre = events.subrange(0, t);
    assert(forall|k: int| 0 <= k < pre.len() ==> #[trigger] pre[k] == events[k]);
    let w0 = Seq::<WaitObj>::empty();
    assert(!has_index(w0, 0));
    lemma_run_events(objs, pre, 0, w0);
}

/* Round trip for blobs: tokenize, build, serialize gives back the bytes. */

/// A complete blob block as it stands in an export stream.
pub open spec fn blob_stream(
    mark_tok: Seq<u8>,
    oid: Seq<u8>,
    size_tok: Seq<u8>,
    payload: Seq<u8>,
) -> Seq<u8> {
    blob_word() + newline() + mark_prefix() + mark_tok + newline() + original_oid_prefix() + oid
        + newline() + data_prefix() + size_tok + newline() + payload + newline()
}

/// The inputs on which a blob block survives the round trip byte for
/// byte: a canonical mark, an oid line that is newline-free valid UTF-8,
/// and a length token that matches the payload's actual byte count.
pub open spec fn blob_stream_ok(
    mark_tok: Seq<u8>,
    oid: Seq<u8>,
    size_tok: Seq<u8>,
    payload: Seq<u8>,
) -> bool {
    &&& crate::bytestr::is_canonical_dec(mark_tok)
    &&& crate::bytestr::dec_val(mark_tok) <= u64::MAX
    &&& crate::bytestr::is_digits(size_tok)
    &&& size_tok.len() > 0
    &&& crate::bytestr::dec_val(size_tok) <= u64::MAX
    &&& crate::bytestr::dec_val(size_tok) == payload.len()
    &&& vstd::utf8::valid_utf8(oid)
    &&& forall|i: int| 0 <= i < oid.len() ==> #[trigger] oid[i] != 10
}

proof fn lemma_line_end_at(s: Seq<u8>, i: int, j: int)
    requires
        0 <= i <= j <= s.len(),
        forall|k: int| i <= k < j ==> s[k] != 10,
        j == s.len() || s[j] == 10,
    ensures
        crate::unstructured_parse::line_end(s, i) == j,
{
    crate::unstructured_parse::lemma_line_end(s, i);
    let le = crate::unstructured_parse::line_end(s, i);
    if le < j {
        assert(s[le] == 10);
        assert(s[le] != 10);
    } else if le > j {
        assert(s[j] != 10);
    }
}

proof fn lemma_prefix_first_byte(line: Seq<u8>, p: Seq<u8>)
    requires
        crate::bytestr::has_prefix(line, p),
        p.len() > 0,
    ensures
        line.len() > 0,
        line[0] == p[0],
{
    assert(line.subrange(0, p.len() as int)[0] == line[0]);
}

/// The raw record the tokenizer yields for one blob block.
pub open spec fn blob_items(
    mark_tok: Seq<u8>,
    oid: Seq<u8>,
    size_tok: Seq<u8>,
    payload: Seq<u8>,
) -> Seq<crate::unstructured_parse::RawItemModel> {
    seq![
        crate::unstructured_parse::RawItemModel::Line(blob_word()),
        crate::unstructured_parse::RawItemModel::Line(mark_prefix() + mark_tok),
        crate::unstructured_parse::RawItemModel::Line(original_oid_prefix() + oid),
        crate::unstructured_parse::RawItemModel::Data(size_tok, payload),
    ]
}

/// The object model the builder yields for that record.
pub open spec fn blob_model(
    mark_tok: Seq<u8>,
    oid: Seq<u8>,
    size_tok: Seq<u8>,
    payload: Seq<u8>,
) -> crate::structured_parse::ObjectModel {
    crate::structured_parse::ObjectModel {
        has_feature_done: false,
        has_reset: None,
        has_reset_from: None,
        data_size: size_tok,
        object_type: crate::structured_parse::ObjectTypeModel::Blob(
            crate::structured_parse::BlobModel {
                mark: crate::bytestr::dec_val(mark_tok) as u64,
                original_oid: oid,
                data: payload,
            },
        ),
    }
}

#[verifier::rlimit(100)]
proof fn lemma_blob_layout(mark_tok: Seq<u8>, oid: Seq<u8>, size_tok: Seq<u8>, payload: Seq<u8>)
    requires
        blob_stream_ok(mark_tok, oid, size_tok, payload),
    ensures
        ({
            let s = blob_stream(mark_tok, oid, size_tok, payload);
            let l2 = mark_prefix() + mark_tok;
            let l3 = original_oid_prefix() + oid;
            let l4 = data_prefix() + size_tok;
            let p2 = 5 + l2.len() as int;
            let b3 = p2 + 1;
            let p3 = b3 + l3.len();
            let b4 = p3 + 1;
            let p4 = b4 + l4.len();
            let bp = p4 + 1;
            let pp = bp + payload.len();
            &&& s.len() == pp + 1
            &&& s.subrange(0, 4) == blob_word()
            &&& s.subrange(5, p2) == l2
            &&& s.subrange(b3, p3) == l3
            &&& s.subrange(b4, p4) == l4
            &&& s.subrange(bp, pp) == payload
            &&& s[pp] == 10
            &&& crate::unstructured_parse::line_end(s, 0) == 4
            &&& crate::unstructured_parse::line_end(s, 5) == p2
            &&& crate::unstructured_parse::line_end(s, b3) == p3
            &&& crate::unstructured_parse::line_end(s, b4) == p4
            &&& crate::unstructured_parse::line_end(s, pp) == pp
        }),
{
    let s = blob_stream(mark_tok, oid, size_tok, payload);
    let l1 = blob_word();
    let l2 = mark_prefix() + mark_tok;
    let l3 = original_oid_prefix() + oid;
    let l4 = data_prefix() + size_tok;
    let p2 = 5 + l2.len() as int;
    let b3 = p2 + 1;
    let p3 = b3 + l3.len();
    let b4 = p3 + 1;
    let p4 = b4 + l4.len();
    let bp = p4 + 1;
    let pp = bp + payload.len();
    assert(s.len() == pp + 1);
    assert(s.subrange(0, 4) =~= l1);
    assert(s[4] == 10);
    assert(s.subrange(5, p2) =~= l2);
    assert(s[p2] == 10);
    assert(s.subrange(b3, p3) =~= l3);
    assert(s[p3] == 10);
    assert(s.subrange(b4, p4) =~= l4);
    assert(s[p4] == 10);
    assert(s.subrange(bp, pp) =~= payload);
    assert(s[pp] == 10);
    assert(crate::unstructured_parse::line_end(s, 0) == 4) by {
        assert(forall|k: int| 0 <= k < 4 ==> s[k] == l1[k]);
        assert(l1[0] == 98 && l1[1] == 108 && l1[2] == 111 && l1[3] == 98);
        lemma_line_end_at(s, 0, 4);
    }
    assert(crate::unstructured_parse::line_end(s, 5) == p2) by {
        assert(forall|k: int| 5 <= k < p2 ==> s[k] == l2[k - 5]);
        assert(forall|k: int|
            0 <= k < l2.len() ==> l2[k] == (if k < 6 {
                mark_prefix()[k]
            } else {
                mark_tok[k - 6]
            }));
        assert(forall|k: int| 0 <= k < mark_tok.len() ==> 48 <= #[trigger] mark_tok[k] <= 57);
        assert(forall|k: int| 0 <= k < l2.len() ==> l2[k] != 10);
        lemma_line_end_at(s, 5, p2);
    }
    assert(crate::unstructured_parse::line_end(s, b3) == p3) by {
        assert(forall|k: int| b3 <= k < p3 ==> s[k] == l3[k - b3]);
        assert(forall|k: int|
            0 <= k < l3.len() ==> l3[k] == (if k < 13 {
                original_oid_prefix()[k]
            } else {
                oid[k - 13]
            }));
        assert(forall|k: int| 0 <= k < l3.len() ==> l3[k] != 10);
        lemma_line_end_at(s, b3, p3);
    }
    assert(crate::unstructured_parse::line_end(s, b4) == p4) by {
        assert(forall|k: int| b4 <= k < p4 ==> s[k] == l4[k - b4]);
        assert(forall|k: int|
            0 <= k < l4.len() ==> l4[k] == (if k < 5 {
                data_prefix()[k]
            } else {
                size_tok[k - 5]
            }));
        assert(forall|k: int| 0 <= k < size_tok.len() ==> 48 <= #[trigger] size_tok[k] <= 57);
        assert(forall|k: int| 0 <= k < l4.len() ==> l4[k] != 10);
        lemma_line_end_at(s, b4, p4);
    }
    assert(crate::unstructured_parse::line_end(s, pp) == pp) by {
        lemma_line_end_at(s, pp, pp);
    }
}

proof fn lemma_not_starter_not_data(line: Seq<u8>)
    requires
        line.len() > 0,
        line[0] != 99,
        line[0] != 98,
        line[0] != 114,
        line[0] != 102,
        line[0] != 100,
    ensures
        !crate::unstructured_parse::is_record_starter(line),
        !has_prefix(line, data_prefix()),
{
    if has_prefix(line, commit_prefix()) {
        lemma_prefix_first_byte(line, commit_prefix());
    }
    if line =~= blob_word() {
        assert(line[0] == 98);
    }
    if has_prefix(line, reset_prefix()) {
        lemma_prefix_first_byte(line, reset_prefix());
    }
    if has_prefix(line, feature_prefix()) {
        lemma_prefix_first_byte(line, feature_prefix());
    }
    if has_prefix(line, data_prefix()) {
        lemma_prefix_first_byte(line, data_prefix());
    }
}

#[verifier::rlimit(100)]
proof fn lemma_blob_tokenize(mark_tok: Seq<u8>, oid: Seq<u8>, size_tok: Seq<u8>, payload: Seq<u8>)
    requires
        blob_stream_ok(mark_tok, oid, size_tok, payload),
    ensures
        crate::unstructured_parse::tokenize_from(blob_stream(mark_tok, oid, size_tok, payload), 0)
            == Ok::<_, crate::unstructured_parse::TokenizeError>(
            seq![blob_items(mark_tok, oid, size_tok, payload)],
        ),
{
    let s = blob_stream(mark_tok, oid, size_tok, payload);
    let l1 = blob_word();
    let l2 = mark_prefix() + mark_tok;
    let l3 = original_oid_prefix() + oid;
    let l4 = data_prefix() + size_tok;
    let p2 = 5 + l2.len() as int;
    let b3 = p2 + 1;
    let p3 = b3 + l3.len();
    let b4 = p3 + 1;
    let p4 = b4 + l4.len();
    let bp = p4 + 1;
    let pp = bp + payload.len();
    lemma_blob_layout(mark_tok, oid, size_tok, payload);
    assert(l2[0] == 109);
    assert(l3[0] == 111);
    assert(l4[0] == 100);

    let a0 = Seq::<RawItemModel>::empty();
    let a1 = a0.push(RawItemModel::Line(l1));
    let a2 = a1.push(RawItemModel::Line(l2));
    let a3 = a2.push(RawItemModel::Line(l3));
    let a4 = a3.push(RawItemModel::Data(size_tok, payload));

    assert(next_record(s, 0, a0, false) == next_record(s, 5, a1, true)) by {
        assert(l1.len() != 0);
        assert(!has_prefix(l1, data_prefix()));
        assert(crate::unstructured_parse::is_main_line(l1));
    }
    assert(next_record(s, 5, a1, true) == next_record(s, b3, a2, true)) by {
        lemma_not_starter_not_data(l2);
        assert(l2.len() != 0);
    }
    assert(next_record(s, b3, a2, true) == next_record(s, b4, a3, true)) by {
        lemma_not_starter_not_data(l3);
        assert(l3.len() != 0);
    }
    assert(next_record(s, b4, a3, true) == next_record(s, pp, a4, true)) by {
        assert(!crate::unstructured_parse::is_record_starter(l4)) by {
            if has_prefix(l4, commit_prefix()) {
                lemma_prefix_first_byte(l4, commit_prefix());
            }
            if l4 =~= blob_word() {
                assert(l4[0] == 98);
            }
            if has_prefix(l4, reset_prefix()) {
                lemma_prefix_first_byte(l4, reset_prefix());
            }
            if has_prefix(l4, feature_prefix()) {
                lemma_prefix_first_byte(l4, feature_prefix());
            }
        }
        assert(l4.len() != 0);
        assert(has_prefix(l4, data_prefix())) by {
            assert(l4.subrange(0, 5) =~= data_prefix());
        }
        let tok = l4.subrange(data_prefix().len() as int, l4.len() as int);
        assert(tok =~= size_tok);
        assert(tok.len() > 0 && is_digits(tok) && dec_val(tok) <= u64::MAX);
        assert(p4 + 1 + dec_val(tok) == pp);
        assert(!(p4 + 1 + dec_val(tok) > s.len()));
        assert(s.subrange(p4 + 1, p4 + 1 + dec_val(tok)) == payload);
        assert(a3.push(RawItemModel::Data(tok, s.subrange(p4 + 1, p4 + 1 + dec_val(tok))))
            == a4);
    }
    assert(next_record(s, pp, a4, true) == next_record(s, pp + 1, a4, true)) by {
        assert(s.subrange(pp, pp) =~= Seq::<u8>::empty());
        assert(s.subrange(pp, pp).len() == 0);
    }
    assert(next_record(s, pp + 1, a4, true) == TokStep::Rec(a4, s.len() as int)) by {
        assert(pp + 1 >= s.len());
        assert(a4.len() > 0);
    }
    assert(next_record(s, 0, a0, false) == TokStep::Rec(a4, s.len() as int));
    assert(next_record(s, s.len() as int, a0, false) is End);
    assert(tokenize_from(s, s.len() as int) == Ok::<
        Seq<Seq<RawItemModel>>,
        crate::unstructured_parse::TokenizeError,
    >(seq![]));
    assert(a4 =~= blob_items(mark_tok, oid, size_tok, payload));
    assert(seq![a4] + seq![] =~= seq![blob_items(mark_tok, oid, size_tok, payload)]);
}

#[verifier::rlimit(100)]
proof fn lemma_blob_step1(st0: BuildState)
    ensures
        build_line_step(st0, blob_word()) == Ok::<BuildState, crate::structured_parse::ParseError>(
            BuildState {
                main: MainPartial::Blob(BlobPartial { mark: None, oid: None, data: None }),
                ..st0
            },
        ),
{
    let l1 = blob_word();
    assert(!(l1 =~= feature_done_line())) by {
        if l1 =~= feature_done_line() {
            assert(l1.len() == 12);
        }
    }
    assert(!has_prefix(l1, commit_prefix()));
    assert(l1 =~= blob_word());
}

#[verifier::rlimit(100)]
proof fn lemma_blob_step2(st: BuildState, b: BlobPartial, mark_tok: Seq<u8>)
    requires
        st.main == MainPartial::Blob(b),
        crate::bytestr::is_canonical_dec(mark_tok),
        dec_val(mark_tok) <= u64::MAX,
    ensures
        build_line_step(st, mark_prefix() + mark_tok) == Ok::<
            BuildState,
            crate::structured_parse::ParseError,
        >(
            BuildState {
                main: MainPartial::Blob(
                    BlobPartial { mark: Some(dec_val(mark_tok) as u64), ..b },
                ),
                ..st
            },
        ),
{
    let l2 = mark_prefix() + mark_tok;
    assert(l2[0] == 109);
    assert(!(l2 =~= feature_done_line())) by {
        if l2 =~= feature_done_line() {
            assert(l2[0] == feature_done_line()[0]);
        }
    }
    if has_prefix(l2, commit_prefix()) {
        lemma_prefix_first_byte(l2, commit_prefix());
    }
    assert(!(l2 =~= blob_word())) by {
        if l2 =~= blob_word() {
            assert(l2[0] == blob_word()[0]);
        }
    }
    assert(has_prefix(l2, mark_prefix())) by {
        assert(l2.subrange(0, 6) =~= mark_prefix());
    }
    let tok = l2.subrange(mark_prefix().len() as int, l2.len() as int);
    assert(tok =~= mark_tok);
    assert(crate::structured_parse::is_mark_token(tok));
}

#[verifier::rlimit(100)]
proof fn lemma_blob_step3(st: BuildState, b: BlobPartial, oid: Seq<u8>)
    requires
        st.main == MainPartial::Blob(b),
    ensures
        build_line_step(st, original_oid_prefix() + oid) == Ok::<
            BuildState,
            crate::structured_parse::ParseError,
        >(BuildState { main: MainPartial::Blob(BlobPartial { oid: Some(oid), ..b }), ..st }),
{
    let l3 = original_oid_prefix() + oid;
    assert(l3[0] == 111);
    assert(!(l3 =~= feature_done_line())) by {
        if l3 =~= feature_done_line() {
            assert(l3[0] == feature_done_line()[0]);
        }
    }
    if has_prefix(l3, commit_prefix()) {
        lemma_prefix_first_byte(l3, commit_prefix());
    }
    assert(!(l3 =~= blob_word())) by {
        if l3 =~= blob_word() {
            assert(l3[0] == blob_word()[0]);
        }
    }
    if has_prefix(l3, mark_prefix()) {
        lemma_prefix_first_byte(l3, mark_prefix());
    }
    assert(has_prefix(l3, original_oid_prefix())) by {
        assert(l3.subrange(0, 13) =~= original_oid_prefix());
    }
    let rest = l3.subrange(original_oid_prefix().len() as int, l3.len() as int);
    assert(rest =~= oid);
}

#[verifier::rlimit(100)]
proof fn lemma_blob_build(mark_tok: Seq<u8>, oid: Seq<u8>, size_tok: Seq<u8>, payload: Seq<u8>)
    requires
        blob_stream_ok(mark_tok, oid, size_tok, payload),
    ensures
        build_spec(blob_items(mark_tok, oid, size_tok, payload)) == Ok::<
            _,
            crate::structured_parse::ParseError,
        >(blob_model(mark_tok, oid, size_tok, payload)),
{
    let items = blob_items(mark_tok, oid, size_tok, payload);
    let l1 = blob_word();
    let l2 = mark_prefix() + mark_tok;
    let l3 = original_oid_prefix() + oid;
    let st0 = init_build_state();
    let b1 = BlobPartial { mark: None, oid: None, data: None };
    let st1 = BuildState { main: MainPartial::Blob(b1), ..st0 };
    let b2 = BlobPartial { mark: Some(dec_val(mark_tok) as u64), ..b1 };
    let st2 = BuildState { main: MainPartial::Blob(b2), ..st0 };
    let b3 = BlobPartial { oid: Some(oid), ..b2 };
    let st3 = BuildState { main: MainPartial::Blob(b3), ..st0 };
    let b4 = BlobPartial { data: Some((size_tok, payload)), ..b3 };
    let st4 = BuildState { main: MainPartial::Blob(b4), ..st0 };
    lemma_blob_step1(st0);
    lemma_blob_step2(st1, b1, mark_tok);
    lemma_blob_step3(st2, b2, oid);
    assert(build_data_step(st3, size_tok, payload) == st4);
    assert(build_fold(st0, items) == Ok::<BuildState, crate::structured_parse::ParseError>(st4))
        by {
        assert(items[0] == RawItemModel::Line(l1));
        let r1 = items.drop_first();
        assert(r1[0] == RawItemModel::Line(l2));
        let r2 = r1.drop_first();
        assert(r2[0] == RawItemModel::Line(l3));
        let r3 = r2.drop_first();
        assert(r3[0] == RawItemModel::Data(size_tok, payload));
        let r4 = r3.drop_first();
        assert(r4.len() == 0);
        assert(build_fold(st4, r4) == Ok::<BuildState, crate::structured_parse::ParseError>(st4));
        assert(build_fold(st0, items) == build_fold(st1, r1)) by {
            assert(crate::structured_parse::build_step(st0, items[0]) == Ok::<
                BuildState,
                crate::structured_parse::ParseError,
            >(st1));
        }
        assert(build_fold(st1, r1) == build_fold(st2, r2)) by {
            assert(crate::structured_parse::build_step(st1, r1[0]) == Ok::<
                BuildState,
                crate::structured_parse::ParseError,
            >(st2));
        }
        assert(build_fold(st2, r2) == build_fold(st3, r3)) by {
            assert(crate::structured_parse::build_step(st2, r2[0]) == Ok::<
                BuildState,
                crate::structured_parse::ParseError,
            >(st3));
        }
        assert(build_fold(st3, r3) == build_fold(st4, r4)) by {
            assert(crate::structured_parse::build_step(st3, r3[0]) == Ok::<
                BuildState,
                crate::structured_parse::ParseError,
            >(st4));
        }
    }
    assert(finalize_build(st4) == Ok::<ObjectModel, crate::structured_parse::ParseError>(
        blob_model(mark_tok, oid, size_tok, payload),
    )) by {
        let m = finalize_build(st4);
        assert(m is Ok);
        assert(m->Ok_0 =~~= blob_model(mark_tok, oid, size_tok, payload));
    }
}

#[verifier::rlimit(100)]
proof fn lemma_blob_serialize(mark_tok: Seq<u8>, oid: Seq<u8>, size_tok: Seq<u8>, payload: Seq<u8>)
    requires
        blob_stream_ok(mark_tok, oid, size_tok, payload),
    ensures
        forall|obj: StructuredExportObject|
            object_matches(obj, blob_model(mark_tok, oid, size_tok, payload))
                ==> serialize_spec(obj) =~= blob_stream(mark_tok, oid, size_tok, payload),
{
    let m = blob_model(mark_tok, oid, size_tok, payload);
    let s = blob_stream(mark_tok, oid, size_tok, payload);
    assert(vstd::utf8::valid_utf8(size_tok)) by {
        assert(forall|i: int| 0 <= i < size_tok.len() ==> #[trigger] size_tok[i] < 128);
        crate::bytestr::lemma_ascii_bytes_valid_utf8(size_tok);
    }
    assert forall|obj: StructuredExportObject| object_matches(obj, m) implies serialize_spec(obj)
        =~= s by {
        assert(obj.has_feature_done == false);
        assert(obj.has_reset is None);
        assert(obj.has_reset_from is None);
        assert(obj.data_size@ =~= vstd::utf8::decode_utf8(size_tok));
        let b = obj.object_type->Blob_0;
        assert(obj.object_type == StructuredObjectType::Blob(b));
        assert(b.mark == dec_val(mark_tok) as u64);
        assert(b.original_oid@ =~= vstd::utf8::decode_utf8(oid));
        assert(b.data@ =~= payload);
        assert(header_block(obj) =~= Seq::<u8>::empty());
        assert(encode_utf8(b.original_oid@) == oid) by {
            vstd::utf8::decode_utf8_encode_utf8(oid);
        }
        assert(encode_utf8(obj.data_size@) == size_tok) by {
            vstd::utf8::decode_utf8_encode_utf8(size_tok);
        }
        assert(dec_str(b.mark as nat) == mark_tok) by {
            assert(b.mark as nat == dec_val(mark_tok));
            crate::bytestr::lemma_dec_str_dec_val(mark_tok);
        }
        assert(serialize_spec(obj) =~= s);
    }
}

/// Round trip for blobs: a blob block whose declared length token matches
/// its payload's byte count, whose mark is in canonical decimal form and
/// whose oid line is newline-free valid UTF-8, comes back byte for byte:
/// the tokenizer yields exactly its one raw record, the builder turns that
/// record into the corresponding structured object, and serializing any
/// object built that way reproduces the original bytes.
pub proof fn lemma_blob_round_trip(
    mark_tok: Seq<u8>,
    oid: Seq<u8>,
    size_tok: Seq<u8>,
    payload: Seq<u8>,
)
    requires
        blob_stream_ok(mark_tok, oid, size_tok, payload),
    ensures
        ({
            let s = blob_stream(mark_tok, oid, size_tok, payload);
            &&& crate::unstructured_parse::tokenize_from(s, 0) == Ok::<
                _,
                crate::unstructured_parse::TokenizeError,
            >(seq![blob_items(mark_tok, oid, size_tok, payload)])
            &&& build_spec(blob_items(mark_tok, oid, size_tok, payload)) == Ok::<
                _,
                crate::structured_parse::ParseError,
            >(blob_model(mark_tok, oid, size_tok, payload))
            &&& forall|obj: StructuredExportObject|
                object_matches(obj, blob_model(mark_tok, oid, size_tok, payload))
                    ==> serialize_spec(obj) =~= s
        }),
{
    lemma_blob_tokenize(mark_tok, oid, size_tok, payload);
    lemma_blob_build(mark_tok, oid, size_tok, payload);
    lemma_blob_serialize(mark_tok, oid, size_tok, payload);
}

} // verus!