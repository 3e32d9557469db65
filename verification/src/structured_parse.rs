//! The structured side of the export stream: fully-owned commit and blob
//! objects, together with the byte-level models that the builder's and
//! serializer's contracts are stated over.
//!
//! Every text field of an object is owned; nothing borrows from the input
//! buffer, so objects can cross thread boundaries and outlive the stream.

use vstd::prelude::*;
use vstd::utf8::{decode_utf8, valid_utf8};

use crate::bytestr::{bytes_to_string_lossy, dec_val, has_prefix, is_digits, parse_decimal_u64,
    starts_with_bytes, bytes_eq};
use crate::unstructured_parse::{items_view, raw_line_view, RawItemModel, RawLine,
    UnparsedFastExportObject, record_view};
use crate::wire::{author_prefix, author_prefix_bytes, blob_word, blob_word_bytes, commit_prefix,
    commit_prefix_bytes, committer_prefix, committer_prefix_bytes, copy_prefix, copy_prefix_bytes,
    delete_prefix, delete_prefix_bytes, deleteall_word, deleteall_word_bytes, feature_done_line,
    feature_done_line_bytes, from_mark_prefix, from_mark_prefix_bytes, from_prefix,
    from_prefix_bytes, mark_prefix, mark_prefix_bytes, merge_mark_prefix, merge_mark_prefix_bytes,
    modify_prefix, modify_prefix_bytes, note_prefix, note_prefix_bytes, original_oid_prefix,
    original_oid_prefix_bytes, rename_prefix, rename_prefix_bytes, reset_prefix,
    reset_prefix_bytes};

verus! {

/// One `author` or `committer` line, split into its parts.  `timestr` keeps
/// the already-formatted `<epoch> <tz-offset>` expression opaque.
#[derive(Debug, Clone, PartialEq)]
pub struct CommitPersonOwned {
    pub name: Option<String>,
    pub email: String,
    pub timestr: String,
}

/// One file operation line of a commit, keyword-dispatched.
#[derive(Debug, Clone, PartialEq)]
pub enum FileOpsOwned {
    FileModify(String, String, String),
    FileDelete(String),
    FileCopy(String, String),
    FileRename(String, String),
    FileDeleteAll,
    NoteModify(String, String),
}

/// A structured commit record.
#[derive(Debug, Clone, PartialEq)]
pub struct CommitObjectOwned {
    pub commit_ref: String,
    pub mark: u64,
    pub original_oid: String,
    pub author: Option<CommitPersonOwned>,
    pub committer: CommitPersonOwned,
    pub commit_message: String,
    /// Parent marks in stream order: the first is the `from` parent, the
    /// rest are `merge` parents.
    pub merges: Vec<u64>,
    pub fileops: Vec<FileOpsOwned>,
}

/// A structured blob record; `data` is the raw payload, never decoded.
#[derive(Debug, Clone, PartialEq)]
pub struct BlobObjectOwned {
    pub mark: u64,
    pub original_oid: String,
    pub data: Vec<u8>,
}

#[derive(Debug, Clone, PartialEq)]
pub enum StructuredObjectType {
    Commit(CommitObjectOwned),
    Blob(BlobObjectOwned),
}

/// One top-level parsed unit of the stream.
#[derive(Debug, Clone, PartialEq)]
pub struct StructuredExportObject {
    pub has_feature_done: bool,
    pub has_reset: Option<String>,
    pub has_reset_from: Option<String>,
    /// For a blob, the byte-length token captured verbatim from the stream;
    /// re-emitted unchanged on serialization.
    pub data_size: String,
    pub object_type: StructuredObjectType,
}

impl CommitObjectOwned {
    pub fn get_author(&self) -> (r: Option<&CommitPersonOwned>)
        ensures
            r matches Some(p) ==> self.author matches Some(q) && p == q,
            r is None <==> self.author is None,
    {
        match &self.author {
            Some(p) => Some(p),
            None => None,
        }
    }
}

/// Why the structured builder rejected a raw record.
#[derive(Debug, Clone, Copy, PartialEq, Eq, Structural)]
pub enum ParseError {
    /// The record holds no `commit` or `blob` command line.
    MissingCommand,
    /// A `mark :<n>` line whose mark is not a decimal number that fits.
    BadMark,
    /// A `from :<n>` or `merge :<n>` line whose mark is malformed.
    BadMergeMark,
    /// An `author`/`committer` line that does not split into
    /// name, `<email>` and time string.
    BadPersonLine,
    /// A file-operation line with a known keyword but malformed layout.
    BadFileOp,
    /// A commit without a `mark` line.
    MissingMark,
    /// A commit or blob without an `original-oid` line.
    MissingOid,
    /// A commit without a `committer` line.
    MissingCommitter,
    /// A commit or blob without a `data` block.
    MissingData,
}

/* Byte-level models.  The builder's contract describes the object it returns
 * through these: every field as the exact bytes it was taken from. */

#[verifier::ext_equal]
pub struct PersonModel {
    pub name: Option<Seq<u8>>,
    pub email: Seq<u8>,
    pub timestr: Seq<u8>,
}

#[verifier::ext_equal]
pub enum FileOpModel {
    Modify(Seq<u8>, Seq<u8>, Seq<u8>),
    Delete(Seq<u8>),
    Copy(Seq<u8>, Seq<u8>),
    Rename(Seq<u8>, Seq<u8>),
    DeleteAll,
    NoteModify(Seq<u8>, Seq<u8>),
}

#[verifier::ext_equal]
pub struct CommitModel {
    pub commit_ref: Seq<u8>,
    pub mark: u64,
    pub original_oid: Seq<u8>,
    pub author: Option<PersonModel>,
    pub committer: PersonModel,
    pub message: Seq<u8>,
    pub merges: Seq<u64>,
    pub fileops: Seq<FileOpModel>,
}

#[verifier::ext_equal]
pub struct BlobModel {
    pub mark: u64,
    pub original_oid: Seq<u8>,
    pub data: Seq<u8>,
}

#[verifier::ext_equal]
pub enum ObjectTypeModel {
    Commit(CommitModel),
    Blob(BlobModel),
}

#[verifier::ext_equal]
pub struct ObjectModel {
    pub has_feature_done: bool,
    pub has_reset: Option<Seq<u8>>,
    pub has_reset_from: Option<Seq<u8>>,
    pub data_size: Seq<u8>,
    pub object_type: ObjectTypeModel,
}

/// The text `f` is what the bytes `b` decode to, whenever they decode at
/// all.  Invalid UTF-8 is replaced best-effort, and nothing is pinned then.
pub open spec fn decodes_to(f: Seq<char>, b: Seq<u8>) -> bool {
    valid_utf8(b) ==> f =~= decode_utf8(b)
}

pub open spec fn opt_decodes_to(f: Option<String>, b: Option<Seq<u8>>) -> bool {
    match b {
        Some(bb) => f matches Some(ff) && decodes_to(ff@, bb),
        None => f is None,
    }
}

pub open spec fn person_matches(p: CommitPersonOwned, m: PersonModel) -> bool {
    &&& opt_decodes_to(p.name, m.name)
    &&& decodes_to(p.email@, m.email)
    &&& decodes_to(p.timestr@, m.timestr)
}

pub open spec fn opt_person_matches(p: Option<CommitPersonOwned>, m: Option<PersonModel>) -> bool {
    match m {
        Some(mm) => p matches Some(pp) && person_matches(pp, mm),
        None => p is None,
    }
}

pub open spec fn fileop_matches(f: FileOpsOwned, m: FileOpModel) -> bool {
    match m {
        FileOpModel::Modify(mode, dataref, path) => f matches FileOpsOwned::FileModify(a, b, c)
            && decodes_to(a@, mode) && decodes_to(b@, dataref) && decodes_to(c@, path),
        FileOpModel::Delete(path) => f matches FileOpsOwned::FileDelete(a) && decodes_to(a@, path),
        FileOpModel::Copy(src, dst) => f matches FileOpsOwned::FileCopy(a, b) && decodes_to(a@, src)
            && decodes_to(b@, dst),
        FileOpModel::Rename(src, dst) => f matches FileOpsOwned::FileRename(a, b) && decodes_to(
            a@,
            src,
        ) && decodes_to(b@, dst),
        FileOpModel::DeleteAll => f is FileDeleteAll,
        FileOpModel::NoteModify(dataref, commitish) => f matches FileOpsOwned::NoteModify(a, b)
            && decodes_to(a@, dataref) && decodes_to(b@, commitish),
    }
}

pub open spec fn commit_matches(c: CommitObjectOwned, m: CommitModel) -> bool {
    &&& decodes_to(c.commit_ref@, m.commit_ref)
    &&& c.mark == m.mark
    &&& decodes_to(c.original_oid@, m.original_oid)
    &&& opt_person_matches(c.author, m.author)
    &&& person_matches(c.committer, m.committer)
    &&& decodes_to(c.commit_message@, m.message)
    &&& c.merges@ =~= m.merges
    &&& c.fileops@.len() == m.fileops.len()
    &&& forall|i: int|
        0 <= i < m.fileops.len() ==> fileop_matches(#[trigger] c.fileops@[i], m.fileops[i])
}

pub open spec fn blob_matches(b: BlobObjectOwned, m: BlobModel) -> bool {
    &&& b.mark == m.mark
    &&& decodes_to(b.original_oid@, m.original_oid)
    &&& b.data@ =~= m.data
}

pub open spec fn object_matches(o: StructuredExportObject, m: ObjectModel) -> bool {
    &&& o.has_feature_done == m.has_feature_done
    &&& opt_decodes_to(o.has_reset, m.has_reset)
    &&& opt_decodes_to(o.has_reset_from, m.has_reset_from)
    &&& decodes_to(o.data_size@, m.data_size)
    &&& match m.object_type {
        ObjectTypeModel::Commit(cm) => o.object_type matches StructuredObjectType::Commit(c)
            && commit_matches(c, cm),
        ObjectTypeModel::Blob(bm) => o.object_type matches StructuredObjectType::Blob(b)
            && blob_matches(b, bm),
    }
}

/* The structured builder's spec: a fold over the items of a raw record. */

/// First index at or after `from` holding byte `b`, or the length.
pub open spec fn find_byte(s: Seq<u8>, b: u8, from: int) -> int
    decreases s.len() - from,
{
    if from < 0 {
        0
    } else if from >= s.len() {
        s.len() as int
    } else if s[from] == b {
        from
    } else {
        find_byte(s, b, from + 1)
    }
}

pub proof fn lemma_find_byte(s: Seq<u8>, b: u8, from: int)
    requires
        0 <= from <= s.len(),
    ensures
        from <= find_byte(s, b, from) <= s.len(),
        forall|k: int| from <= k < find_byte(s, b, from) ==> s[k] != b,
        find_byte(s, b, from) < s.len() ==> s[find_byte(s, b, from)] == b,
    decreases s.len() - from,
{
    if from < s.len() && s[from] != b {
        lemma_find_byte(s, b, from + 1);
    }
}

/// Split a person line's tail into optional name, email and time string:
/// `[name ]<email> timestr`.
pub open spec fn parse_person_model(rest: Seq<u8>) -> Option<PersonModel> {
    let lt = find_byte(rest, 60, 0);
    if lt == rest.len() {
        None
    } else if lt > 0 && rest[lt - 1] != 32 {
        None
    } else {
        let gt = find_byte(rest, 62, lt + 1);
        if gt == rest.len() {
            None
        } else if gt + 1 >= rest.len() || rest[gt + 1] != 32 {
            None
        } else {
            Some(
                PersonModel {
                    name: if lt == 0 {
                        None
                    } else {
                        Some(rest.subrange(0, lt - 1))
                    },
                    email: rest.subrange(lt + 1, gt),
                    timestr: rest.subrange(gt + 2, rest.len() as int),
                },
            )
        }
    }
}

/// Split `a b` at the first space.
pub open spec fn parse_two_fields(rest: Seq<u8>) -> Option<(Seq<u8>, Seq<u8>)> {
    let sp = find_byte(rest, 32, 0);
    if sp == rest.len() {
        None
    } else {
        Some((rest.subrange(0, sp), rest.subrange(sp + 1, rest.len() as int)))
    }
}

/// Split `a b c` at the first two spaces; the third field keeps any
/// further spaces.
pub open spec fn parse_three_fields(rest: Seq<u8>) -> Option<(Seq<u8>, Seq<u8>, Seq<u8>)> {
    let sp1 = find_byte(rest, 32, 0);
    if sp1 == rest.len() {
        None
    } else {
        let sp2 = find_byte(rest, 32, sp1 + 1);
        if sp2 == rest.len() {
            None
        } else {
            Some(
                (
                    rest.subrange(0, sp1),
                    rest.subrange(sp1 + 1, sp2),
                    rest.subrange(sp2 + 1, rest.len() as int),
                ),
            )
        }
    }
}

/// A decimal mark token that fits in a `u64`.
pub open spec fn is_mark_token(t: Seq<u8>) -> bool {
    t.len() > 0 && is_digits(t) && dec_val(t) <= u64::MAX
}

#[verifier::ext_equal]
pub struct CommitPartial {
    pub commit_ref: Seq<u8>,
    pub mark: Option<u64>,
    pub oid: Option<Seq<u8>>,
    pub author: Option<PersonModel>,
    pub committer: Option<PersonModel>,
    pub msg: Option<(Seq<u8>, Seq<u8>)>,
    pub merges: Seq<u64>,
    pub fileops: Seq<FileOpModel>,
}

#[verifier::ext_equal]
pub struct BlobPartial {
    pub mark: Option<u64>,
    pub oid: Option<Seq<u8>>,
    pub data: Option<(Seq<u8>, Seq<u8>)>,
}

#[verifier::ext_equal]
pub enum MainPartial {
    NoneYet,
    Commit(CommitPartial),
    Blob(BlobPartial),
}

#[verifier::ext_equal]
pub struct BuildState {
    pub feature_done: bool,
    pub reset: Option<Seq<u8>>,
    pub reset_from: Option<Seq<u8>>,
    pub main: MainPartial,
}

pub open spec fn init_build_state() -> BuildState {
    BuildState {
        feature_done: false,
        reset: None,
        reset_from: None,
        main: MainPartial::NoneYet,
    }
}

pub open spec fn empty_commit_partial(commit_ref: Seq<u8>) -> CommitPartial {
    CommitPartial {
        commit_ref: commit_ref,
        mark: None,
        oid: None,
        author: None,
        committer: None,
        msg: None,
        merges: seq![],
        fileops: seq![],
    }
}

/// How one ordinary line changes the build state.  Lines whose keyword is
/// unknown, or known but out of place, are silently ignored; malformed
/// content under a known keyword is an error.
pub open spec fn build_line_step(st: BuildState, line: Seq<u8>) -> Result<BuildState, ParseError> {
    if line =~= feature_done_line() {
        Ok(BuildState { feature_done: true, ..st })
    } else if has_prefix(line, commit_prefix()) {
        Ok(
            BuildState {
                main: MainPartial::Commit(
                    empty_commit_partial(
                        line.subrange(commit_prefix().len() as int, line.len() as int),
                    ),
                ),
                ..st
            },
        )
    } else if line =~= blob_word() {
        Ok(
            BuildState {
                main: MainPartial::Blob(BlobPartial { mark: None, oid: None, data: None }),
                ..st
            },
        )
    } else if has_prefix(line, mark_prefix()) {
        let tok = line.subrange(mark_prefix().len() as int, line.len() as int);
        match st.main {
            MainPartial::NoneYet => Ok(st),
            MainPartial::Commit(c) => if is_mark_token(tok) {
                Ok(
                    BuildState {
                        main: MainPartial::Commit(
                            CommitPartial { mark: Some(dec_val(tok) as u64), ..c },
                        ),
                        ..st
                    },
                )
            } else {
                Err(ParseError::BadMark)
            },
            MainPartial::Blob(b) => if is_mark_token(tok) {
                Ok(
                    BuildState {
                        main: MainPartial::Blob(
                            BlobPartial { mark: Some(dec_val(tok) as u64), ..b },
                        ),
                        ..st
                    },
                )
            } else {
                Err(ParseError::BadMark)
            },
        }
    } else if has_prefix(line, original_oid_prefix()) {
        let rest = line.subrange(original_oid_prefix().len() as int, line.len() as int);
        match st.main {
            MainPartial::NoneYet => Ok(st),
            MainPartial::Commit(c) => Ok(
                BuildState {
                    main: MainPartial::Commit(CommitPartial { oid: Some(rest), ..c }),
                    ..st
                },
            ),
            MainPartial::Blob(b) => Ok(
                BuildState { main: MainPartial::Blob(BlobPartial { oid: Some(rest), ..b }), ..st },
            ),
        }
    } else if has_prefix(line, author_prefix()) {
        match st.main {
            MainPartial::Commit(c) => match parse_person_model(
                line.subrange(author_prefix().len() as int, line.len() as int),
            ) {
                Some(p) => Ok(
                    BuildState {
                        main: MainPartial::Commit(CommitPartial { author: Some(p), ..c }),
                        ..st
                    },
                ),
                None => Err(ParseError::BadPersonLine),
            },
            _ => Ok(st),
        }
    } else if has_prefix(line, committer_prefix()) {
        match st.main {
            MainPartial::Commit(c) => match parse_person_model(
                line.subrange(committer_prefix().len() as int, line.len() as int),
            ) {
                Some(p) => Ok(
                    BuildState {
                        main: MainPartial::Commit(CommitPartial { committer: Some(p), ..c }),
                        ..st
                    },
                ),
                None => Err(ParseError::BadPersonLine),
            },
            _ => Ok(st),
        }
    } else if has_prefix(line, from_prefix()) {
        match st.main {
            MainPartial::Commit(c) => if has_prefix(line, from_mark_prefix()) {
                let tok = line.subrange(from_mark_prefix().len() as int, line.len() as int);
                if is_mark_token(tok) {
                    Ok(
                        BuildState {
                            main: MainPartial::Commit(
                                CommitPartial { merges: c.merges.push(dec_val(tok) as u64), ..c },
                            ),
                            ..st
                        },
                    )
                } else {
                    Err(ParseError::BadMergeMark)
                }
            } else {
                Ok(st)
            },
            MainPartial::NoneYet => if st.reset is Some {
                Ok(
                    BuildState {
                        reset_from: Some(
                            line.subrange(from_prefix().len() as int, line.len() as int),
                        ),
                        ..st
                    },
                )
            } else {
                Ok(st)
            },
            MainPartial::Blob(b) => Ok(st),
        }
    } else if has_prefix(line, merge_mark_prefix()) {
        match st.main {
            MainPartial::Commit(c) => {
                let tok = line.subrange(merge_mark_prefix().len() as int, line.len() as int);
                if is_mark_token(tok) {
                    Ok(
                        BuildState {
                            main: MainPartial::Commit(
                                CommitPartial { merges: c.merges.push(dec_val(tok) as u64), ..c },
                            ),
                            ..st
                        },
                    )
                } else {
                    Err(ParseError::BadMergeMark)
                }
            },
            _ => Ok(st),
        }
    } else if has_prefix(line, reset_prefix()) {
        match st.main {
            MainPartial::NoneYet => Ok(
                BuildState {
                    reset: Some(line.subrange(reset_prefix().len() as int, line.len() as int)),
                    ..st
                },
            ),
            _ => Ok(st),
        }
    } else if has_prefix(line, modify_prefix()) {
        match st.main {
            MainPartial::Commit(c) => match parse_three_fields(
                line.subrange(modify_prefix().len() as int, line.len() as int),
            ) {
                Some(f) => Ok(
                    BuildState {
                        main: MainPartial::Commit(
                            CommitPartial {
                                fileops: c.fileops.push(FileOpModel::Modify(f.0, f.1, f.2)),
                                ..c
                            },
                        ),
                        ..st
                    },
                ),
                None => Err(ParseError::BadFileOp),
            },
            _ => Ok(st),
        }
    } else if has_prefix(line, delete_prefix()) {
        match st.main {
            MainPartial::Commit(c) => Ok(
                BuildState {
                    main: MainPartial::Commit(
                        CommitPartial {
                            fileops: c.fileops.push(
                                FileOpModel::Delete(
                                    line.subrange(delete_prefix().len() as int, line.len() as int),
                                ),
                            ),
                            ..c
                        },
                    ),
                    ..st
                },
            ),
            _ => Ok(st),
        }
    } else if has_prefix(line, copy_prefix()) {
        match st.main {
            MainPartial::Commit(c) => match parse_two_fields(
                line.subrange(copy_prefix().len() as int, line.len() as int),
            ) {
                Some(f) => Ok(
                    BuildState {
                        main: MainPartial::Commit(
                            CommitPartial { fileops: c.fileops.push(FileOpModel::Copy(f.0, f.1)), ..c },
                        ),
                        ..st
                    },
                ),
                None => Err(ParseError::BadFileOp),
            },
            _ => Ok(st),
        }
    } else if has_prefix(line, rename_prefix()) {
        match st.main {
            MainPartial::Commit(c) => match parse_two_fields(
                line.subrange(rename_prefix().len() as int, line.len() as int),
            ) {
                Some(f) => Ok(
                    BuildState {
                        main: MainPartial::Commit(
                            CommitPartial {
                                fileops: c.fileops.push(FileOpModel::Rename(f.0, f.1)),
                                ..c
                            },
                        ),
                        ..st
                    },
                ),
                None => Err(ParseError::BadFileOp),
            },
            _ => Ok(st),
        }
    } else if has_prefix(line, note_prefix()) {
        match st.main {
            MainPartial::Commit(c) => match parse_two_fields(
                line.subrange(note_prefix().len() as int, line.len() as int),
            ) {
                Some(f) => Ok(
                    BuildState {
                        main: MainPartial::Commit(
                            CommitPartial {
                                fileops: c.fileops.push(FileOpModel::NoteModify(f.0, f.1)),
                                ..c
                            },
                        ),
                        ..st
                    },
                ),
                None => Err(ParseError::BadFileOp),
            },
            _ => Ok(st),
        }
    } else if line =~= deleteall_word() {
        match st.main {
            MainPartial::Commit(c) => Ok(
                BuildState {
                    main: MainPartial::Commit(
                        CommitPartial { fileops: c.fileops.push(FileOpModel::DeleteAll), ..c },
                    ),
                    ..st
                },
            ),
            _ => Ok(st),
        }
    } else {
        Ok(st)
    }
}

/// How a `data` block changes the build state.
pub open spec fn build_data_step(st: BuildState, tok: Seq<u8>, bytes: Seq<u8>) -> BuildState {
    match st.main {
        MainPartial::NoneYet => st,
        MainPartial::Commit(c) => BuildState {
            main: MainPartial::Commit(CommitPartial { msg: Some((tok, bytes)), ..c }),
            ..st
        },
        MainPartial::Blob(b) => BuildState {
            main: MainPartial::Blob(BlobPartial { data: Some((tok, bytes)), ..b }),
            ..st
        },
    }
}

pub open spec fn build_step(st: BuildState, item: RawItemModel) -> Result<BuildState, ParseError> {
    match item {
        RawItemModel::Line(l) => build_line_step(st, l),
        RawItemModel::Data(tok, bytes) => Ok(build_data_step(st, tok, bytes)),
    }
}

pub open spec fn build_fold(st: BuildState, items: Seq<RawItemModel>) -> Result<
    BuildState,
    ParseError,
>
    decreases items.len(),
{
    if items.len() == 0 {
        Ok(st)
    } else {
        match build_step(st, items[0]) {
            Ok(st2) => build_fold(st2, items.drop_first()),
            Err(e) => Err(e),
        }
    }
}

/// Turn a finished build state into the object model, or the error naming
/// what the record lacked.
pub open spec fn finalize_build(st: BuildState) -> Result<ObjectModel, ParseError> {
    match st.main {
        MainPartial::NoneYet => Err(ParseError::MissingCommand),
        MainPartial::Commit(c) => if c.mark is None {
            Err(ParseError::MissingMark)
        } else if c.oid is None {
            Err(ParseError::MissingOid)
        } else if c.committer is None {
            Err(ParseError::MissingCommitter)
        } else if c.msg is None {
            Err(ParseError::MissingData)
        } else {
            Ok(
                ObjectModel {
                    has_feature_done: st.feature_done,
                    has_reset: st.reset,
                    has_reset_from: st.reset_from,
                    data_size: (c.msg->0).0,
                    object_type: ObjectTypeModel::Commit(
                        CommitModel {
                            commit_ref: c.commit_ref,
                            mark: c.mark->0,
                            original_oid: c.oid->0,
                            author: c.author,
                            committer: c.committer->0,
                            message: (c.msg->0).1,
                            merges: c.merges,
                            fileops: c.fileops,
                        },
                    ),
                },
            )
        },
        MainPartial::Blob(b) => if b.mark is None {
            Err(ParseError::MissingMark)
        } else if b.oid is None {
            Err(ParseError::MissingOid)
        } else if b.data is None {
            Err(ParseError::MissingData)
        } else {
            Ok(
                ObjectModel {
                    has_feature_done: st.feature_done,
                    has_reset: st.reset,
                    has_reset_from: st.reset_from,
                    data_size: (b.data->0).0,
                    object_type: ObjectTypeModel::Blob(
                        BlobModel { mark: b.mark->0, original_oid: b.oid->0, data: (b.data->0).1 },
                    ),
                },
            )
        },
    }
}

/// What a raw record means: fold its items through the build state, then
/// finish.
pub open spec fn build_spec(items: Seq<RawItemModel>) -> Result<ObjectModel, ParseError> {
    match build_fold(init_build_state(), items) {
        Ok(st) => finalize_build(st),
        Err(e) => Err(e),
    }
}

/* Author omission, as the builder guarantees it. */

/// No line of the record is an author line.
pub open spec fn has_no_author_line(items: Seq<RawItemModel>) -> bool {
    forall|k: int|
        0 <= k < items.len() ==> ((#[trigger] items[k]) matches RawItemModel::Line(l)
            ==> !has_prefix(l, author_prefix()))
}

/// The build state carries no author.
pub open spec fn author_none(st: BuildState) -> bool {
    st.main matches MainPartial::Commit(c) ==> c.author is None
}

#[verifier::rlimit(100)]
proof fn lemma_step_keeps_author(st: BuildState, item: RawItemModel)
    requires
        author_none(st),
        item matches RawItemModel::Line(l) ==> !has_prefix(l, author_prefix()),
    ensures
        build_step(st, item) matches Ok(st2) ==> author_none(st2),
{
}

proof fn lemma_fold_keeps_author(st: BuildState, items: Seq<RawItemModel>)
    requires
        author_none(st),
        has_no_author_line(items),
    ensures
        build_fold(st, items) matches Ok(st2) ==> author_none(st2),
    decreases items.len(),
{
    if items.len() == 0 {
    } else {
        lemma_step_keeps_author(st, items[0]);
        match build_step(st, items[0]) {
            Ok(st2) => {
                assert(forall|k: int|
                    0 <= k < items.drop_first().len() ==> #[trigger] items.drop_first()[k]
                        == items[k + 1]);
                lemma_fold_keeps_author(st2, items.drop_first());
            },
            Err(e) => {},
        }
    }
}

/// Optional author omission: a record with no author line builds into a
/// commit whose `author` is `None`.
pub proof fn lemma_no_author_build(items: Seq<RawItemModel>)
    requires
        has_no_author_line(items),
    ensures
        build_spec(items) matches Ok(m) ==> (m.object_type matches ObjectTypeModel::Commit(c)
            ==> c.author is None),
{
    lemma_fold_keeps_author(init_build_state(), items);
}

/* The executable builder: byte-level partial state mirroring the spec fold. */

struct RawPerson {
    name: Option<Vec<u8>>,
    email: Vec<u8>,
    timestr: Vec<u8>,
}

enum RawFileOp {
    Modify(Vec<u8>, Vec<u8>, Vec<u8>),
    Delete(Vec<u8>),
    Copy(Vec<u8>, Vec<u8>),
    Rename(Vec<u8>, Vec<u8>),
    DeleteAll,
    NoteModify(Vec<u8>, Vec<u8>),
}

struct CommitPartialX {
    commit_ref: Vec<u8>,
    mark: Option<u64>,
    oid: Option<Vec<u8>>,
    author: Option<RawPerson>,
    committer: Option<RawPerson>,
    msg: Option<(Vec<u8>, Vec<u8>)>,
    merges: Vec<u64>,
    fileops: Vec<RawFileOp>,
}

struct BlobPartialX {
    mark: Option<u64>,
    oid: Option<Vec<u8>>,
    data: Option<(Vec<u8>, Vec<u8>)>,
}

enum MainPartialX {
    NoneYet,
    Commit(CommitPartialX),
    Blob(BlobPartialX),
}

struct BuildStateX {
    feature_done: bool,
    reset: Option<Vec<u8>>,
    reset_from: Option<Vec<u8>>,
    main: MainPartialX,
}

spec fn opt_vec_view(o: Option<Vec<u8>>) -> Option<Seq<u8>> {
    match o {
        Some(v) => Some(v@),
        None => None,
    }
}

spec fn raw_person_view(p: RawPerson) -> PersonModel {
    PersonModel { name: opt_vec_view(p.name), email: p.email@, timestr: p.timestr@ }
}

spec fn opt_person_view(o: Option<RawPerson>) -> Option<PersonModel> {
    match o {
        Some(p) => Some(raw_person_view(p)),
        None => None,
    }
}

spec fn raw_fileop_view(f: RawFileOp) -> FileOpModel {
    match f {
        RawFileOp::Modify(a, b, c) => FileOpModel::Modify(a@, b@, c@),
        RawFileOp::Delete(a) => FileOpModel::Delete(a@),
        RawFileOp::Copy(a, b) => FileOpModel::Copy(a@, b@),
        RawFileOp::Rename(a, b) => FileOpModel::Rename(a@, b@),
        RawFileOp::DeleteAll => FileOpModel::DeleteAll,
        RawFileOp::NoteModify(a, b) => FileOpModel::NoteModify(a@, b@),
    }
}

spec fn opt_pair_view(o: Option<(Vec<u8>, Vec<u8>)>) -> Option<(Seq<u8>, Seq<u8>)> {
    match o {
        Some(p) => Some((p.0@, p.1@)),
        None => None,
    }
}

spec fn commit_partial_view(c: CommitPartialX) -> CommitPartial {
    CommitPartial {
        commit_ref: c.commit_ref@,
        mark: c.mark,
        oid: opt_vec_view(c.oid),
        author: opt_person_view(c.author),
        committer: opt_person_view(c.committer),
        msg: opt_pair_view(c.msg),
        merges: c.merges@,
        fileops: c.fileops@.map_values(|f: RawFileOp| raw_fileop_view(f)),
    }
}

spec fn blob_partial_view(b: BlobPartialX) -> BlobPartial {
    BlobPartial { mark: b.mark, oid: opt_vec_view(b.oid), data: opt_pair_view(b.data) }
}

spec fn state_view(st: BuildStateX) -> BuildState {
    BuildState {
        feature_done: st.feature_done,
        reset: opt_vec_view(st.reset),
        reset_from: opt_vec_view(st.reset_from),
        main: match st.main {
            MainPartialX::NoneYet => MainPartial::NoneYet,
            MainPartialX::Commit(c) => MainPartial::Commit(commit_partial_view(c)),
            MainPartialX::Blob(b) => MainPartial::Blob(blob_partial_view(b)),
        },
    }
}

/* Executable helpers mirroring the small parsing spec functions. */

fn find_byte_exec(s: &[u8], b: u8, from: usize) -> (r: usize)
    requires
        from <= s@.len(),
    ensures
        r == find_byte(s@, b, from as int),
        from <= r <= s@.len(),
{
    let mut k: usize = from;
    while k < s.len() && s[k] != b
        invariant
            from <= k <= s@.len(),
            find_byte(s@, b, from as int) == find_byte(s@, b, k as int),
        decreases s@.len() - k,
    {
        k = k + 1;
    }
    proof {
        lemma_find_byte(s@, b, from as int);
    }
    k
}

fn copy_vec(v: &Vec<u8>) -> (r: Vec<u8>)
    ensures
        r@ =~= v@,
{
    crate::unstructured_parse::copy_range(v.as_slice(), 0, v.len())
}

fn parse_person_exec(rest: &[u8]) -> (r: Option<RawPerson>)
    ensures
        ({
            let m = parse_person_model(rest@);
            match r {
                Some(p) => m matches Some(pm) && raw_person_view(p) == pm,
                None => m is None,
            }
        }),
{
    let lt = find_byte_exec(rest, 60, 0);
    if lt == rest.len() {
        return None;
    }
    if lt > 0 && rest[lt - 1] != 32 {
        return None;
    }
    let gt = find_byte_exec(rest, 62, lt + 1);
    if gt == rest.len() {
        return None;
    }
    if gt + 1 >= rest.len() || rest[gt + 1] != 32 {
        return None;
    }
    let name = if lt == 0 {
        None
    } else {
        Some(crate::unstructured_parse::copy_range(rest, 0, lt - 1))
    };
    let email = crate::unstructured_parse::copy_range(rest, lt + 1, gt);
    let timestr = crate::unstructured_parse::copy_range(rest, gt + 2, rest.len());
    let p = RawPerson { name, email, timestr };
    proof {
        let m = parse_person_model(rest@);
        assert(m matches Some(pm) && raw_person_view(p) =~~= pm);
    }
    Some(p)
}

fn parse_two_exec(rest: &[u8]) -> (r: Option<(Vec<u8>, Vec<u8>)>)
    ensures
        ({
            let m = parse_two_fields(rest@);
            match r {
                Some(p) => m matches Some(pm) && p.0@ =~= pm.0 && p.1@ =~= pm.1,
                None => m is None,
            }
        }),
{
    let sp = find_byte_exec(rest, 32, 0);
    if sp == rest.len() {
        return None;
    }
    let a = crate::unstructured_parse::copy_range(rest, 0, sp);
    let b = crate::unstructured_parse::copy_range(rest, sp + 1, rest.len());
    Some((a, b))
}

fn parse_three_exec(rest: &[u8]) -> (r: Option<(Vec<u8>, Vec<u8>, Vec<u8>)>)
    ensures
        ({
            let m = parse_three_fields(rest@);
            match r {
                Some(p) => m matches Some(pm) && p.0@ =~= pm.0 && p.1@ =~= pm.1 && p.2@ =~= pm.2,
                None => m is None,
            }
        }),
{
    let sp1 = find_byte_exec(rest, 32, 0);
    if sp1 == rest.len() {
        return None;
    }
    let sp2 = find_byte_exec(rest, 32, sp1 + 1);
    if sp2 == rest.len() {
        return None;
    }
    let a = crate::unstructured_parse::copy_range(rest, 0, sp1);
    let b = crate::unstructured_parse::copy_range(rest, sp1 + 1, sp2);
    let c = crate::unstructured_parse::copy_range(rest, sp2 + 1, rest.len());
    Some((a, b, c))
}

/// The tail of `line` after its first `k` bytes.
fn line_suffix(line: &Vec<u8>, k: usize) -> (r: Vec<u8>)
    requires
        k <= line@.len(),
    ensures
        r@ =~= line@.subrange(k as int, line@.len() as int),
{
    crate::unstructured_parse::copy_range(line.as_slice(), k, line.len())
}

#[verifier::rlimit(100)]
fn build_line_step_exec(st: BuildStateX, line: &Vec<u8>) -> (r: Result<BuildStateX, ParseError>)
    ensures
        ({
            let m = build_line_step(state_view(st), line@);
            match r {
                Ok(st2) => m matches Ok(sm) && state_view(st2) == sm,
                Err(e) => m matches Err(ee) && e == ee,
            }
        }),
{
    let ghost sv = state_view(st);
    let BuildStateX { feature_done, reset, reset_from, main } = st;
    let w = feature_done_line_bytes();
    if bytes_eq(line.as_slice(), w.as_slice()) {
        let st2 = BuildStateX { feature_done: true, reset, reset_from, main };
        proof {
            assert(state_view(st2) =~~= BuildState { feature_done: true, ..sv });
        }
        return Ok(st2);
    }
    let p = commit_prefix_bytes();
    if starts_with_bytes(line.as_slice(), p.as_slice()) {
        let commit_ref = line_suffix(line, p.len());
        let st2 = BuildStateX {
            feature_done,
            reset,
            reset_from,
            main: MainPartialX::Commit(
                CommitPartialX {
                    commit_ref,
                    mark: None,
                    oid: None,
                    author: None,
                    committer: None,
                    msg: None,
                    merges: Vec::new(),
                    fileops: Vec::new(),
                },
            ),
        };
        proof {
            let m = build_line_step(sv, line@);
            assert(m is Ok);
            assert(state_view(st2) =~~= m->Ok_0);
        }
        return Ok(st2);
    }
    let w = blob_word_bytes();
    if bytes_eq(line.as_slice(), w.as_slice()) {
        let st2 = BuildStateX {
            feature_done,
            reset,
            reset_from,
            main: MainPartialX::Blob(BlobPartialX { mark: None, oid: None, data: None }),
        };
        proof {
            let m = build_line_step(sv, line@);
            assert(m is Ok);
            assert(state_view(st2) =~~= m->Ok_0);
        }
        return Ok(st2);
    }
    let p = mark_prefix_bytes();
    if starts_with_bytes(line.as_slice(), p.as_slice()) {
        let tok = line_suffix(line, p.len());
        match main {
            MainPartialX::NoneYet => {
                let st2 = BuildStateX { feature_done, reset, reset_from, main: MainPartialX::NoneYet };
                proof {
                    assert(state_view(st2) =~~= sv);
                }
                return Ok(st2);
            },
            MainPartialX::Commit(c) => match parse_decimal_u64(tok.as_slice()) {
                Some(v) => {
                    let st2 = BuildStateX {
                        feature_done,
                        reset,
                        reset_from,
                        main: MainPartialX::Commit(CommitPartialX { mark: Some(v), ..c }),
                    };
                    proof {
                        let m = build_line_step(sv, line@);
                        assert(m is Ok);
                        assert(state_view(st2) =~~= m->Ok_0);
                    }
                    return Ok(st2);
                },
                None => {
                    return Err(ParseError::BadMark);
                },
            },
            MainPartialX::Blob(b) => match parse_decimal_u64(tok.as_slice()) {
                Some(v) => {
                    let st2 = BuildStateX {
                        feature_done,
                        reset,
                        reset_from,
                        main: MainPartialX::Blob(BlobPartialX { mark: Some(v), ..b }),
                    };
                    proof {
                        let m = build_line_step(sv, line@);
                        assert(m is Ok);
                        assert(state_view(st2) =~~= m->Ok_0);
                    }
                    return Ok(st2);
                },
                None => {
                    return Err(ParseError::BadMark);
                },
            },
        }
    }
    let p = original_oid_prefix_bytes();
    if starts_with_bytes(line.as_slice(), p.as_slice()) {
        let rest = line_suffix(line, p.len());
        match main {
            MainPartialX::NoneYet => {
                let st2 = BuildStateX { feature_done, reset, reset_from, main: MainPartialX::NoneYet };
                proof {
                    assert(state_view(st2) =~~= sv);
                }
                return Ok(st2);
            },
            MainPartialX::Commit(c) => {
                let st2 = BuildStateX {
                    feature_done,
                    reset,
                    reset_from,
                    main: MainPartialX::Commit(CommitPartialX { oid: Some(rest), ..c }),
                };
                proof {
                    let m = build_line_step(sv, line@);
                    assert(m is Ok);
                    assert(state_view(st2) =~~= m->Ok_0);
                }
                return Ok(st2);
            },
            MainPartialX::Blob(b) => {
                let st2 = BuildStateX {
                    feature_done,
                    reset,
                    reset_from,
                    main: MainPartialX::Blob(BlobPartialX { oid: Some(rest), ..b }),
                };
                proof {
                    let m = build_line_step(sv, line@);
                    assert(m is Ok);
                    assert(state_view(st2) =~~= m->Ok_0);
                }
                return Ok(st2);
            },
        }
    }
    let p = author_prefix_bytes();
    if starts_with_bytes(line.as_slice(), p.as_slice()) {
        let rest = line_suffix(line, p.len());
        match main {
            MainPartialX::Commit(c) => match parse_person_exec(rest.as_slice()) {
                Some(person) => {
                    let st2 = BuildStateX {
                        feature_done,
                        reset,
                        reset_from,
                        main: MainPartialX::Commit(CommitPartialX { author: Some(person), ..c }),
                    };
                    proof {
                        let m = build_line_step(sv, line@);
                        assert(m is Ok);
                        assert(state_view(st2) =~~= m->Ok_0);
                    }
                    return Ok(st2);
                },
                None => {
                    return Err(ParseError::BadPersonLine);
                },
            },
            other => {
                let st2 = BuildStateX { feature_done, reset, reset_from, main: other };
                proof {
                    assert(state_view(st2) =~~= sv);
                }
                return Ok(st2);
            },
        }
    }
    let p = committer_prefix_bytes();
    if starts_with_bytes(line.as_slice(), p.as_slice()) {
        let rest = line_suffix(line, p.len());
        match main {
            MainPartialX::Commit(c) => match parse_person_exec(rest.as_slice()) {
                Some(person) => {
                    let st2 = BuildStateX {
                        feature_done,
                        reset,
                        reset_from,
                        main: MainPartialX::Commit(CommitPartialX { committer: Some(person), ..c }),
                    };
                    proof {
                        let m = build_line_step(sv, line@);
                        assert(m is Ok);
                        assert(state_view(st2) =~~= m->Ok_0);
                    }
                    return Ok(st2);
                },
                None => {
                    return Err(ParseError::BadPersonLine);
                },
            },
            other => {
                let st2 = BuildStateX { feature_done, reset, reset_from, main: other };
                proof {
                    assert(state_view(st2) =~~= sv);
                }
                return Ok(st2);
            },
        }
    }
    let p = from_prefix_bytes();
    if starts_with_bytes(line.as_slice(), p.as_slice()) {
        match main {
            MainPartialX::Commit(c) => {
                let pm = from_mark_prefix_bytes();
                if starts_with_bytes(line.as_slice(), pm.as_slice()) {
                    let tok = line_suffix(line, pm.len());
                    match parse_decimal_u64(tok.as_slice()) {
                        Some(v) => {
                            let mut c = c;
                            c.merges.push(v);
                            let st2 = BuildStateX {
                                feature_done,
                                reset,
                                reset_from,
                                main: MainPartialX::Commit(c),
                            };
                            proof {
                                let m = build_line_step(sv, line@);
                                assert(m is Ok);
                                assert(state_view(st2) =~~= m->Ok_0);
                            }
                            return Ok(st2);
                        },
                        None => {
                            return Err(ParseError::BadMergeMark);
                        },
                    }
                } else {
                    let st2 = BuildStateX {
                        feature_done,
                        reset,
                        reset_from,
                        main: MainPartialX::Commit(c),
                    };
                    proof {
                        assert(state_view(st2) =~~= sv);
                    }
                    return Ok(st2);
                }
            },
            MainPartialX::NoneYet => {
                if reset.is_some() {
                    let rest = line_suffix(line, p.len());
                    let st2 = BuildStateX {
                        feature_done,
                        reset,
                        reset_from: Some(rest),
                        main: MainPartialX::NoneYet,
                    };
                    proof {
                        let m = build_line_step(sv, line@);
                        assert(m is Ok);
                        assert(state_view(st2) =~~= m->Ok_0);
                    }
                    return Ok(st2);
                } else {
                    let st2 = BuildStateX {
                        feature_done,
                        reset,
                        reset_from,
                        main: MainPartialX::NoneYet,
                    };
                    proof {
                        assert(state_view(st2) =~~= sv);
                    }
                    return Ok(st2);
                }
            },
            MainPartialX::Blob(b) => {
                let st2 = BuildStateX { feature_done, reset, reset_from, main: MainPartialX::Blob(b) };
                proof {
                    assert(state_view(st2) =~~= sv);
                }
                return Ok(st2);
            },
        }
    }
    let p = merge_mark_prefix_bytes();
    if starts_with_bytes(line.as_slice(), p.as_slice()) {
        match main {
            MainPartialX::Commit(c) => {
                let tok = line_suffix(line, p.len());
                match parse_decimal_u64(tok.as_slice()) {
                    Some(v) => {
                        let mut c = c;
                        c.merges.push(v);
                        let st2 = BuildStateX {
                            feature_done,
                            reset,
                            reset_from,
                            main: MainPartialX::Commit(c),
                        };
                        proof {
                            let m = build_line_step(sv, line@);
                            assert(m is Ok);
                            assert(state_view(st2) =~~= m->Ok_0);
                        }
                        return Ok(st2);
                    },
                    None => {
                        return Err(ParseError::BadMergeMark);
                    },
                }
            },
            other => {
                let st2 = BuildStateX { feature_done, reset, reset_from, main: other };
                proof {
                    assert(state_view(st2) =~~= sv);
                }
                return Ok(st2);
            },
        }
    }
    let p = reset_prefix_bytes();
    if starts_with_bytes(line.as_slice(), p.as_slice()) {
        match main {
            MainPartialX::NoneYet => {
                let rest = line_suffix(line, p.len());
                let st2 = BuildStateX {
                    feature_done,
                    reset: Some(rest),
                    reset_from,
                    main: MainPartialX::NoneYet,
                };
                proof {
                    let m = build_line_step(sv, line@);
                    assert(m is Ok);
                    assert(state_view(st2) =~~= m->Ok_0);
                }
                return Ok(st2);
            },
            other => {
                let st2 = BuildStateX { feature_done, reset, reset_from, main: other };
                proof {
                    assert(state_view(st2) =~~= sv);
                }
                return Ok(st2);
            },
        }
    }
    let p = modify_prefix_bytes();
    if starts_with_bytes(line.as_slice(), p.as_slice()) {
        match main {
            MainPartialX::Commit(c) => {
                let rest = line_suffix(line, p.len());
                match parse_three_exec(rest.as_slice()) {
                    Some(f) => {
                        let mut c = c;
                        c.fileops.push(RawFileOp::Modify(f.0, f.1, f.2));
                        let st2 = BuildStateX {
                            feature_done,
                            reset,
                            reset_from,
                            main: MainPartialX::Commit(c),
                        };
                        proof {
                            let m = build_line_step(sv, line@);
                            assert(m is Ok);
                            assert(state_view(st2) =~~= m->Ok_0);
                        }
                        return Ok(st2);
                    },
                    None => {
                        return Err(ParseError::BadFileOp);
                    },
                }
            },
            other => {
                let st2 = BuildStateX { feature_done, reset, reset_from, main: other };
                proof {
                    assert(state_view(st2) =~~= sv);
                }
                return Ok(st2);
            },
        }
    }
    let p = delete_prefix_bytes();
    if starts_with_bytes(line.as_slice(), p.as_slice()) {
        match main {
            MainPartialX::Commit(c) => {
                let rest = line_suffix(line, p.len());
                let mut c = c;
                c.fileops.push(RawFileOp::Delete(rest));
                let st2 = BuildStateX {
                    feature_done,
                    reset,
                    reset_from,
                    main: MainPartialX::Commit(c),
                };
                proof {
                    let m = build_line_step(sv, line@);
                    assert(m is Ok);
                    assert(state_view(st2) =~~= m->Ok_0);
                }
                return Ok(st2);
            },
            other => {
                let st2 = BuildStateX { feature_done, reset, reset_from, main: other };
                proof {
                    assert(state_view(st2) =~~= sv);
                }
                return Ok(st2);
            },
        }
    }
    let p = copy_prefix_bytes();
    if starts_with_bytes(line.as_slice(), p.as_slice()) {
        match main {
            MainPartialX::Commit(c) => {
                let rest = line_suffix(line, p.len());
                match parse_two_exec(rest.as_slice()) {
                    Some(f) => {
                        let mut c = c;
                        c.fileops.push(RawFileOp::Copy(f.0, f.1));
                        let st2 = BuildStateX {
                            feature_done,
                            reset,
                            reset_from,
                            main: MainPartialX::Commit(c),
                        };
                        proof {
                            let m = build_line_step(sv, line@);
                            assert(m is Ok);
                            assert(state_view(st2) =~~= m->Ok_0);
                        }
                        return Ok(st2);
                    },
                    None => {
                        return Err(ParseError::BadFileOp);
                    },
                }
            },
            other => {
                let st2 = BuildStateX { feature_done, reset, reset_from, main: other };
                proof {
                    assert(state_view(st2) =~~= sv);
                }
                return Ok(st2);
            },
        }
    }
    let p = rename_prefix_bytes();
    if starts_with_bytes(line.as_slice(), p.as_slice()) {
        match main {
            MainPartialX::Commit(c) => {
                let rest = line_suffix(line, p.len());
                match parse_two_exec(rest.as_slice()) {
                    Some(f) => {
                        let mut c = c;
                        c.fileops.push(RawFileOp::Rename(f.0, f.1));
                        let st2 = BuildStateX {
                            feature_done,
                            reset,
                            reset_from,
                            main: MainPartialX::Commit(c),
                        };
                        proof {
                            let m = build_line_step(sv, line@);
                            assert(m is Ok);
                            assert(state_view(st2) =~~= m->Ok_0);
                        }
                        return Ok(st2);
                    },
                    None => {
                        return Err(ParseError::BadFileOp);
                    },
                }
            },
            other => {
                let st2 = BuildStateX { feature_done, reset, reset_from, main: other };
                proof {
                    assert(state_view(st2) =~~= sv);
                }
                return Ok(st2);
            },
        }
    }
    let p = note_prefix_bytes();
    if starts_with_bytes(line.as_slice(), p.as_slice()) {
        match main {
            MainPartialX::Commit(c) => {
                let rest = line_suffix(line, p.len());
                match parse_two_exec(rest.as_slice()) {
                    Some(f) => {
                        let mut c = c;
                        c.fileops.push(RawFileOp::NoteModify(f.0, f.1));
                        let st2 = BuildStateX {
                            feature_done,
                            reset,
                            reset_from,
                            main: MainPartialX::Commit(c),
                        };
                        proof {
                            let m = build_line_step(sv, line@);
                            assert(m is Ok);
                            assert(state_view(st2) =~~= m->Ok_0);
                        }
                        return Ok(st2);
                    },
                    None => {
                        return Err(ParseError::BadFileOp);
                    },
                }
            },
            other => {
                let st2 = BuildStateX { feature_done, reset, reset_from, main: other };
                proof {
                    assert(state_view(st2) =~~= sv);
                }
                return Ok(st2);
            },
        }
    }
    let w = deleteall_word_bytes();
    if bytes_eq(line.as_slice(), w.as_slice()) {
        match main {
            MainPartialX::Commit(c) => {
                let mut c = c;
                c.fileops.push(RawFileOp::DeleteAll);
                let st2 = BuildStateX {
                    feature_done,
                    reset,
                    reset_from,
                    main: MainPartialX::Commit(c),
                };
                proof {
                    let m = build_line_step(sv, line@);
                    assert(m is Ok);
                    assert(state_view(st2) =~~= m->Ok_0);
                }
                return Ok(st2);
            },
            other => {
                let st2 = BuildStateX { feature_done, reset, reset_from, main: other };
                proof {
                    assert(state_view(st2) =~~= sv);
                }
                return Ok(st2);
            },
        }
    }
    let st2 = BuildStateX { feature_done, reset, reset_from, main };
    proof {
        assert(state_view(st2) =~~= sv);
    }
    Ok(st2)
}

fn build_data_step_exec(st: BuildStateX, tok: &Vec<u8>, bytes: &Vec<u8>) -> (r: BuildStateX)
    ensures
        state_view(r) == build_data_step(state_view(st), tok@, bytes@),
{
    let ghost sv = state_view(st);
    let BuildStateX { feature_done, reset, reset_from, main } = st;
    match main {
        MainPartialX::NoneYet => {
            let st2 = BuildStateX { feature_done, reset, reset_from, main: MainPartialX::NoneYet };
            proof {
                assert(state_view(st2) =~~= build_data_step(sv, tok@, bytes@));
            }
            st2
        },
        MainPartialX::Commit(c) => {
            let mut c = c;
            c.msg = Some((copy_vec(tok), copy_vec(bytes)));
            let st2 = BuildStateX { feature_done, reset, reset_from, main: MainPartialX::Commit(c) };
            proof {
                assert(state_view(st2) =~~= build_data_step(sv, tok@, bytes@));
            }
            st2
        },
        MainPartialX::Blob(b) => {
            let mut b = b;
            b.data = Some((copy_vec(tok), copy_vec(bytes)));
            let st2 = BuildStateX { feature_done, reset, reset_from, main: MainPartialX::Blob(b) };
            proof {
                assert(state_view(st2) =~~= build_data_step(sv, tok@, bytes@));
            }
            st2
        },
    }
}

/* Decoding the finished byte-level state into the owned object. */

fn decode_owned(v: Vec<u8>) -> (r: String)
    ensures
        decodes_to(r@, v@),
{
    bytes_to_string_lossy(v.as_slice())
}

fn decode_opt(v: Option<Vec<u8>>) -> (r: Option<String>)
    ensures
        opt_decodes_to(r, opt_vec_view(v)),
{
    match v {
        Some(b) => Some(decode_owned(b)),
        None => None,
    }
}

fn convert_person(p: RawPerson) -> (r: CommitPersonOwned)
    ensures
        person_matches(r, raw_person_view(p)),
{
    let RawPerson { name, email, timestr } = p;
    CommitPersonOwned {
        name: decode_opt(name),
        email: decode_owned(email),
        timestr: decode_owned(timestr),
    }
}

fn convert_person_opt(p: Option<RawPerson>) -> (r: Option<CommitPersonOwned>)
    ensures
        opt_person_matches(r, opt_person_view(p)),
{
    match p {
        Some(q) => Some(convert_person(q)),
        None => None,
    }
}

fn convert_fileop(f: RawFileOp) -> (r: FileOpsOwned)
    ensures
        fileop_matches(r, raw_fileop_view(f)),
{
    match f {
        RawFileOp::Modify(a, b, c) => FileOpsOwned::FileModify(
            decode_owned(a),
            decode_owned(b),
            decode_owned(c),
        ),
        RawFileOp::Delete(a) => FileOpsOwned::FileDelete(decode_owned(a)),
        RawFileOp::Copy(a, b) => FileOpsOwned::FileCopy(decode_owned(a), decode_owned(b)),
        RawFileOp::Rename(a, b) => FileOpsOwned::FileRename(decode_owned(a), decode_owned(b)),
        RawFileOp::DeleteAll => FileOpsOwned::FileDeleteAll,
        RawFileOp::NoteModify(a, b) => FileOpsOwned::NoteModify(decode_owned(a), decode_owned(b)),
    }
}

fn convert_fileops(fs: Vec<RawFileOp>) -> (r: Vec<FileOpsOwned>)
    ensures
        r@.len() == fs@.len(),
        forall|k: int|
            0 <= k < fs@.len() ==> fileop_matches(
                #[trigger] r@[k],
                fs@.map_values(|f: RawFileOp| raw_fileop_view(f))[k],
            ),
{
    let ghost fsv = fs@;
    let n: usize = fs.len();
    let mut rem = fs;
    let mut out: Vec<FileOpsOwned> = Vec::new();
    let mut i: usize = 0;
    while i < n
        invariant
            0 <= i <= n,
            n == fsv.len(),
            rem@ =~= fsv.subrange(i as int, fsv.len() as int),
            out@.len() == i,
            forall|k: int|
                0 <= k < i ==> fileop_matches(
                    #[trigger] out@[k],
                    fsv.map_values(|f: RawFileOp| raw_fileop_view(f))[k],
                ),
        decreases n - i,
    {
        let f = rem.remove(0);
        proof {
            assert(f == fsv[i as int]);
            assert(raw_fileop_view(f) == fsv.map_values(|x: RawFileOp| raw_fileop_view(x))[
                i as int
            ]);
        }
        out.push(convert_fileop(f));
        proof {
            assert(rem@ =~= fsv.subrange(i as int + 1, fsv.len() as int));
        }
        i = i + 1;
    }
    out
}

fn finalize_build_exec(st: BuildStateX) -> (r: Result<StructuredExportObject, ParseError>)
    ensures
        ({
            let m = finalize_build(state_view(st));
            match r {
                Ok(obj) => m matches Ok(mm) && object_matches(obj, mm),
                Err(e) => m matches Err(ee) && e == ee,
            }
        }),
{
    let ghost sv = state_view(st);
    let BuildStateX { feature_done, reset, reset_from, main } = st;
    match main {
        MainPartialX::NoneYet => Err(ParseError::MissingCommand),
        MainPartialX::Commit(c) => {
            let CommitPartialX { commit_ref, mark, oid, author, committer, msg, merges, fileops } =
                c;
            let mark_v = match mark {
                Some(v) => v,
                None => {
                    return Err(ParseError::MissingMark);
                },
            };
            let oid_v = match oid {
                Some(v) => v,
                None => {
                    return Err(ParseError::MissingOid);
                },
            };
            let committer_v = match committer {
                Some(p) => p,
                None => {
                    return Err(ParseError::MissingCommitter);
                },
            };
            let (size_tok, msg_bytes) = match msg {
                Some(p) => p,
                None => {
                    return Err(ParseError::MissingData);
                },
            };
            let obj = StructuredExportObject {
                has_feature_done: feature_done,
                has_reset: decode_opt(reset),
                has_reset_from: decode_opt(reset_from),
                data_size: decode_owned(size_tok),
                object_type: StructuredObjectType::Commit(
                    CommitObjectOwned {
                        commit_ref: decode_owned(commit_ref),
                        mark: mark_v,
                        original_oid: decode_owned(oid_v),
                        author: convert_person_opt(author),
                        committer: convert_person(committer_v),
                        commit_message: decode_owned(msg_bytes),
                        merges,
                        fileops: convert_fileops(fileops),
                    },
                ),
            };
            Ok(obj)
        },
        MainPartialX::Blob(b) => {
            let BlobPartialX { mark, oid, data } = b;
            let mark_v = match mark {
                Some(v) => v,
                None => {
                    return Err(ParseError::MissingMark);
                },
            };
            let oid_v = match oid {
                Some(v) => v,
                None => {
                    return Err(ParseError::MissingOid);
                },
            };
            let (size_tok, data_bytes) = match data {
                Some(p) => p,
                None => {
                    return Err(ParseError::MissingData);
                },
            };
            let obj = StructuredExportObject {
                has_feature_done: feature_done,
                has_reset: decode_opt(reset),
                has_reset_from: decode_opt(reset_from),
                data_size: decode_owned(size_tok),
                object_type: StructuredObjectType::Blob(
                    BlobObjectOwned {
                        mark: mark_v,
                        original_oid: decode_owned(oid_v),
                        data: data_bytes,
                    },
                ),
            };
            Ok(obj)
        },
    }
}

/// Build one structured object from a raw record: pure, stateless across
/// calls, so records may be built on any thread in any order.
pub fn parse_into_structured_object(unparsed: UnparsedFastExportObject) -> (r: Result<
    StructuredExportObject,
    ParseError,
>)
    ensures
        ({
            let m = build_spec(record_view(unparsed));
            match r {
                Ok(obj) => m matches Ok(mm) && object_matches(obj, mm),
                Err(e) => m matches Err(ee) && e == ee,
            }
        }),
{
    let items = &unparsed.items;
    let ghost all = record_view(unparsed);
    let mut st = BuildStateX {
        feature_done: false,
        reset: None,
        reset_from: None,
        main: MainPartialX::NoneYet,
    };
    proof {
        assert(state_view(st) =~~= init_build_state());
        assert(all.skip(0) =~= all);
    }
    let mut i: usize = 0;
    while i < items.len()
        invariant
            0 <= i <= items@.len(),
            all == record_view(unparsed),
            all =~= items_view(items@),
            build_fold(init_build_state(), all) == build_fold(state_view(st), all.skip(i as int)),
        decreases items@.len() - i,
    {
        let ghost pre = state_view(st);
        let ghost rest = all.skip(i as int);
        proof {
            assert(rest[0] == all[i as int]);
            assert(all[i as int] == raw_line_view(items@[i as int]));
            assert(rest.drop_first() =~= all.skip(i as int + 1));
        }
        match &items[i] {
            RawLine::Line(l) => {
                let st_in = st;
                match build_line_step_exec(st_in, l) {
                    Ok(st2) => {
                        proof {
                            assert(build_step(pre, rest[0]) == Ok::<BuildState, ParseError>(
                                state_view(st2),
                            ));
                            assert(build_fold(pre, rest) == build_fold(
                                state_view(st2),
                                rest.drop_first(),
                            ));
                        }
                        st = st2;
                    },
                    Err(e) => {
                        proof {
                            assert(build_step(pre, rest[0]) == Err::<BuildState, ParseError>(e));
                            assert(build_fold(pre, rest) == Err::<BuildState, ParseError>(e));
                            assert(build_fold(init_build_state(), all) == Err::<
                                BuildState,
                                ParseError,
                            >(e));
                            assert(build_spec(record_view(unparsed)) == Err::<
                                ObjectModel,
                                ParseError,
                            >(e));
                        }
                        return Err(e);
                    },
                }
            },
            RawLine::Data(tok, bytes) => {
                let st_in = st;
                let st2 = build_data_step_exec(st_in, tok, bytes);
                proof {
                    assert(build_step(pre, rest[0]) == Ok::<BuildState, ParseError>(
                        state_view(st2),
                    ));
                    assert(build_fold(pre, rest) == build_fold(
                        state_view(st2),
                        rest.drop_first(),
                    ));
                }
                st = st2;
            },
        }
        i = i + 1;
    }
    proof {
        assert(all.skip(i as int) =~= Seq::<RawItemModel>::empty());
        assert(build_fold(init_build_state(), all) == Ok::<BuildState, ParseError>(state_view(st)));
        assert(build_spec(record_view(unparsed)) == finalize_build(state_view(st)));
    }
    finalize_build_exec(st)
}

/* A whole commit record, built: the merge-ordering and author-omission
 * laws on a concrete record shape. */

proof fn lemma_prefix_byte(line: Seq<u8>, p: Seq<u8>, j: int)
    requires
        has_prefix(line, p),
        0 <= j < p.len(),
    ensures
        line[j] == p[j],
{
    assert(line.subrange(0, p.len() as int)[j] == line[j]);
}

#[verifier::rlimit(100)]
proof fn lemma_commit_step_commit(st: BuildState, ref_rest: Seq<u8>)
    ensures
        build_line_step(st, commit_prefix() + ref_rest) == Ok::<BuildState, ParseError>(
            BuildState { main: MainPartial::Commit(empty_commit_partial(ref_rest)), ..st },
        ),
{
    let l = commit_prefix() + ref_rest;
    assert(l[0] == 99);
    assert(!(l =~= feature_done_line())) by {
        if l =~= feature_done_line() {
            assert(l[0] == feature_done_line()[0]);
        }
    }
    assert(has_prefix(l, commit_prefix())) by {
        assert(l.subrange(0, 7) =~= commit_prefix());
    }
    let rest = l.subrange(commit_prefix().len() as int, l.len() as int);
    assert(rest =~= ref_rest);
}

#[verifier::rlimit(100)]
proof fn lemma_commit_step_mark(st: BuildState, c: CommitPartial, mark_tok: Seq<u8>)
    requires
        st.main == MainPartial::Commit(c),
        is_mark_token(mark_tok),
    ensures
        build_line_step(st, mark_prefix() + mark_tok) == Ok::<BuildState, ParseError>(
            BuildState {
                main: MainPartial::Commit(
                    CommitPartial { mark: Some(dec_val(mark_tok) as u64), ..c },
                ),
                ..st
            },
        ),
{
    let l = mark_prefix() + mark_tok;
    assert(l[0] == 109);
    assert(!(l =~= feature_done_line())) by {
        if l =~= feature_done_line() {
            assert(l[0] == feature_done_line()[0]);
        }
    }
    if has_prefix(l, commit_prefix()) {
        lemma_prefix_byte(l, commit_prefix(), 0);
    }
    assert(!(l =~= blob_word())) by {
        if l =~= blob_word() {
            assert(l[0] == blob_word()[0]);
        }
    }
    assert(has_prefix(l, mark_prefix())) by {
        assert(l.subrange(0, 6) =~= mark_prefix());
    }
    let tok = l.subrange(mark_prefix().len() as int, l.len() as int);
    assert(tok =~= mark_tok);
}

#[verifier::rlimit(100)]
proof fn lemma_commit_step_oid(st: BuildState, c: CommitPartial, oid: Seq<u8>)
    requires
        st.main == MainPartial::Commit(c),
    ensures
        build_line_step(st, original_oid_prefix() + oid) == Ok::<BuildState, ParseError>(
            BuildState { main: MainPartial::Commit(CommitPartial { oid: Some(oid), ..c }), ..st },
        ),
{
    let l = original_oid_prefix() + oid;
    assert(l[0] == 111);
    assert(!(l =~= feature_done_line())) by {
        if l =~= feature_done_line() {
            assert(l[0] == feature_done_line()[0]);
        }
    }
    if has_prefix(l, commit_prefix()) {
        lemma_prefix_byte(l, commit_prefix(), 0);
    }
    assert(!(l =~= blob_word())) by {
        if l =~= blob_word() {
            assert(l[0] == blob_word()[0]);
        }
    }
    if has_prefix(l, mark_prefix()) {
        lemma_prefix_byte(l, mark_prefix(), 0);
    }
    assert(has_prefix(l, original_oid_prefix())) by {
        assert(l.subrange(0, 13) =~= original_oid_prefix());
    }
    let rest = l.subrange(original_oid_prefix().len() as int, l.len() as int);
    assert(rest =~= oid);
}

#[verifier::rlimit(100)]
proof fn lemma_commit_step_committer(
    st: BuildState,
    c: CommitPartial,
    person_rest: Seq<u8>,
    pm: PersonModel,
)
    requires
        st.main == MainPartial::Commit(c),
        parse_person_model(person_rest) == Some(pm),
    ensures
        build_line_step(st, committer_prefix() + person_rest) == Ok::<BuildState, ParseError>(
            BuildState {
                main: MainPartial::Commit(CommitPartial { committer: Some(pm), ..c }),
                ..st
            },
        ),
{
    let l = committer_prefix() + person_rest;
    assert(l[0] == 99);
    assert(l[6] == 116);
    assert(!(l =~= feature_done_line())) by {
        if l =~= feature_done_line() {
            assert(l[0] == feature_done_line()[0]);
        }
    }
    if has_prefix(l, commit_prefix()) {
        lemma_prefix_byte(l, commit_prefix(), 6);
    }
    assert(!(l =~= blob_word())) by {
        if l =~= blob_word() {
            assert(l[0] == blob_word()[0]);
        }
    }
    if has_prefix(l, mark_prefix()) {
        lemma_prefix_byte(l, mark_prefix(), 0);
    }
    if has_prefix(l, original_oid_prefix()) {
        lemma_prefix_byte(l, original_oid_prefix(), 0);
    }
    if has_prefix(l, author_prefix()) {
        lemma_prefix_byte(l, author_prefix(), 0);
    }
    assert(has_prefix(l, committer_prefix())) by {
        assert(l.subrange(0, 10) =~= committer_prefix());
    }
    let rest = l.subrange(committer_prefix().len() as int, l.len() as int);
    assert(rest =~= person_rest);
}

#[verifier::rlimit(100)]
proof fn lemma_commit_step_from(st: BuildState, c: CommitPartial, tok: Seq<u8>)
    requires
        st.main == MainPartial::Commit(c),
        is_mark_token(tok),
    ensures
        build_line_step(st, from_mark_prefix() + tok) == Ok::<BuildState, ParseError>(
            BuildState {
                main: MainPartial::Commit(
                    CommitPartial { merges: c.merges.push(dec_val(tok) as u64), ..c },
                ),
                ..st
            },
        ),
{
    let l = from_mark_prefix() + tok;
    assert(l[0] == 102);
    assert(l[1] == 114);
    assert(!(l =~= feature_done_line())) by {
        if l =~= feature_done_line() {
            assert(l[1] == feature_done_line()[1]);
        }
    }
    if has_prefix(l, commit_prefix()) {
        lemma_prefix_byte(l, commit_prefix(), 0);
    }
    assert(!(l =~= blob_word())) by {
        if l =~= blob_word() {
            assert(l[0] == blob_word()[0]);
        }
    }
    if has_prefix(l, mark_prefix()) {
        lemma_prefix_byte(l, mark_prefix(), 0);
    }
    if has_prefix(l, original_oid_prefix()) {
        lemma_prefix_byte(l, original_oid_prefix(), 0);
    }
    if has_prefix(l, author_prefix()) {
        lemma_prefix_byte(l, author_prefix(), 0);
    }
    if has_prefix(l, committer_prefix()) {
        lemma_prefix_byte(l, committer_prefix(), 0);
    }
    assert(has_prefix(l, from_prefix())) by {
        assert(l.subrange(0, 5) =~= from_prefix());
    }
    assert(has_prefix(l, from_mark_prefix())) by {
        assert(l.subrange(0, 6) =~= from_mark_prefix());
    }
    let rest = l.subrange(from_mark_prefix().len() as int, l.len() as int);
    assert(rest =~= tok);
}

#[verifier::rlimit(100)]
proof fn lemma_commit_step_merge(st: BuildState, c: CommitPartial, tok: Seq<u8>)
    requires
        st.main == MainPartial::Commit(c),
        is_mark_token(tok),
    ensures
        build_line_step(st, merge_mark_prefix() + tok) == Ok::<BuildState, ParseError>(
            BuildState {
                main: MainPartial::Commit(
                    CommitPartial { merges: c.merges.push(dec_val(tok) as u64), ..c },
                ),
                ..st
            },
        ),
{
    let l = merge_mark_prefix() + tok;
    assert(l[0] == 109);
    assert(l[1] == 101);
    assert(!(l =~= feature_done_line())) by {
        if l =~= feature_done_line() {
            assert(l[0] == feature_done_line()[0]);
        }
    }
    if has_prefix(l, commit_prefix()) {
        lemma_prefix_byte(l, commit_prefix(), 0);
    }
    assert(!(l =~= blob_word())) by {
        if l =~= blob_word() {
            assert(l[0] == blob_word()[0]);
        }
    }
    if has_prefix(l, mark_prefix()) {
        lemma_prefix_byte(l, mark_prefix(), 1);
    }
    if has_prefix(l, original_oid_prefix()) {
        lemma_prefix_byte(l, original_oid_prefix(), 0);
    }
    if has_prefix(l, author_prefix()) {
        lemma_prefix_byte(l, author_prefix(), 0);
    }
    if has_prefix(l, committer_prefix()) {
        lemma_prefix_byte(l, committer_prefix(), 0);
    }
    if has_prefix(l, from_prefix()) {
        lemma_prefix_byte(l, from_prefix(), 0);
    }
    assert(has_prefix(l, merge_mark_prefix())) by {
        assert(l.subrange(0, 7) =~= merge_mark_prefix());
    }
    let rest = l.subrange(merge_mark_prefix().len() as int, l.len() as int);
    assert(rest =~= tok);
}

/// The raw record of a commit with a committer line, a message, three
/// parents and no author line.
pub open spec fn three_parent_commit_items(
    ref_rest: Seq<u8>,
    mark_tok: Seq<u8>,
    oid: Seq<u8>,
    person_rest: Seq<u8>,
    msg_tok: Seq<u8>,
    msg: Seq<u8>,
    p1: Seq<u8>,
    p2: Seq<u8>,
    p3: Seq<u8>,
) -> Seq<RawItemModel> {
    seq![
        RawItemModel::Line(commit_prefix() + ref_rest),
        RawItemModel::Line(mark_prefix() + mark_tok),
        RawItemModel::Line(original_oid_prefix() + oid),
        RawItemModel::Line(committer_prefix() + person_rest),
        RawItemModel::Data(msg_tok, msg),
        RawItemModel::Line(from_mark_prefix() + p1),
        RawItemModel::Line(merge_mark_prefix() + p2),
        RawItemModel::Line(merge_mark_prefix() + p3),
    ]
}

/// Merge ordering and author omission on a whole record: a commit record
/// carrying `from :P1`, `merge :P2`, `merge :P3` builds into a commit
/// whose `merges` are exactly `[P1, P2, P3]`, first parent first; with a
/// committer line and no author line, its committer is the parsed person
/// and its author is `None`.
#[verifier::rlimit(100)]
pub proof fn lemma_three_parent_commit_build(
    ref_rest: Seq<u8>,
    mark_tok: Seq<u8>,
    oid: Seq<u8>,
    person_rest: Seq<u8>,
    pm: PersonModel,
    msg_tok: Seq<u8>,
    msg: Seq<u8>,
    p1: Seq<u8>,
    p2: Seq<u8>,
    p3: Seq<u8>,
)
    requires
        is_mark_token(mark_tok),
        parse_person_model(person_rest) == Some(pm),
        is_mark_token(p1),
        is_mark_token(p2),
        is_mark_token(p3),
    ensures
        build_spec(
            three_parent_commit_items(
                ref_rest,
                mark_tok,
                oid,
                person_rest,
                msg_tok,
                msg,
                p1,
                p2,
                p3,
            ),
        ) == Ok::<ObjectModel, ParseError>(
            ObjectModel {
                has_feature_done: false,
                has_reset: None,
                has_reset_from: None,
                data_size: msg_tok,
                object_type: ObjectTypeModel::Commit(
                    CommitModel {
                        commit_ref: ref_rest,
                        mark: dec_val(mark_tok) as u64,
                        original_oid: oid,
                        author: None,
                        committer: pm,
                        message: msg,
                        merges: seq![
                            dec_val(p1) as u64,
                            dec_val(p2) as u64,
                            dec_val(p3) as u64,
                        ],
                        fileops: seq![],
                    },
                ),
            },
        ),
{
    let items = three_parent_commit_items(
        ref_rest,
        mark_tok,
        oid,
        person_rest,
        msg_tok,
        msg,
        p1,
        p2,
        p3,
    );
    let st0 = init_build_state();
    let c1 = empty_commit_partial(ref_rest);
    let st1 = BuildState { main: MainPartial::Commit(c1), ..st0 };
    let c2 = CommitPartial { mark: Some(dec_val(mark_tok) as u64), ..c1 };
    let st2 = BuildState { main: MainPartial::Commit(c2), ..st0 };
    let c3 = CommitPartial { oid: Some(oid), ..c2 };
    let st3 = BuildState { main: MainPartial::Commit(c3), ..st0 };
    let c4 = CommitPartial { committer: Some(pm), ..c3 };
    let st4 = BuildState { main: MainPartial::Commit(c4), ..st0 };
    let c5 = CommitPartial { msg: Some((msg_tok, msg)), ..c4 };
    let st5 = BuildState { main: MainPartial::Commit(c5), ..st0 };
    let c6 = CommitPartial { merges: c5.merges.push(dec_val(p1) as u64), ..c5 };
    let st6 = BuildState { main: MainPartial::Commit(c6), ..st0 };
    let c7 = CommitPartial { merges: c6.merges.push(dec_val(p2) as u64), ..c6 };
    let st7 = BuildState { main: MainPartial::Commit(c7), ..st0 };
    let c8 = CommitPartial { merges: c7.merges.push(dec_val(p3) as u64), ..c7 };
    let st8 = BuildState { main: MainPartial::Commit(c8), ..st0 };
    lemma_commit_step_commit(st0, ref_rest);
    lemma_commit_step_mark(st1, c1, mark_tok);
    lemma_commit_step_oid(st2, c2, oid);
    lemma_commit_step_committer(st3, c3, person_rest, pm);
    assert(build_data_step(st4, msg_tok, msg) == st5);
    lemma_commit_step_from(st5, c5, p1);
    lemma_commit_step_merge(st6, c6, p2);
    lemma_commit_step_merge(st7, c7, p3);
    let r1 = items.drop_first();
    let r2 = r1.drop_first();
    let r3 = r2.drop_first();
    let r4 = r3.drop_first();
    let r5 = r4.drop_first();
    let r6 = r5.drop_first();
    let r7 = r6.drop_first();
    let r8 = r7.drop_first();
    assert(r8.len() == 0);
    assert(build_fold(st8, r8) == Ok::<BuildState, ParseError>(st8));
    assert(build_fold(st7, r7) == build_fold(st8, r8)) by {
        assert(r7[0] == RawItemModel::Line(merge_mark_prefix() + p3));
        assert(build_step(st7, r7[0]) == Ok::<BuildState, ParseError>(st8));
    }
    assert(build_fold(st6, r6) == build_fold(st7, r7)) by {
        assert(r6[0] == RawItemModel::Line(merge_mark_prefix() + p2));
        assert(build_step(st6, r6[0]) == Ok::<BuildState, ParseError>(st7));
    }
    assert(build_fold(st5, r5) == build_fold(st6, r6)) by {
        assert(r5[0] == RawItemModel::Line(from_mark_prefix() + p1));
        assert(build_step(st5, r5[0]) == Ok::<BuildState, ParseError>(st6));
    }
    assert(build_fold(st4, r4) == build_fold(st5, r5)) by {
        assert(r4[0] == RawItemModel::Data(msg_tok, msg));
        assert(build_step(st4, r4[0]) == Ok::<BuildState, ParseError>(st5));
    }
    assert(build_fold(st3, r3) == build_fold(st4, r4)) by {
        assert(r3[0] == RawItemModel::Line(committer_prefix() + person_rest));
        assert(build_step(st3, r3[0]) == Ok::<BuildState, ParseError>(st4));
    }
    assert(build_fold(st2, r2) == build_fold(st3, r3)) by {
        assert(r2[0] == RawItemModel::Line(original_oid_prefix() + oid));
        assert(build_step(st2, r2[0]) == Ok::<BuildState, ParseError>(st3));
    }
    assert(build_fold(st1, r1) == build_fold(st2, r2)) by {
        assert(r1[0] == RawItemModel::Line(mark_prefix() + mark_tok));
        assert(build_step(st1, r1[0]) == Ok::<BuildState, ParseError>(st2));
    }
    assert(build_fold(st0, items) == build_fold(st1, r1)) by {
        assert(items[0] == RawItemModel::Line(commit_prefix() + ref_rest));
        assert(build_step(st0, items[0]) == Ok::<BuildState, ParseError>(st1));
    }
    assert(c8.merges =~= seq![dec_val(p1) as u64, dec_val(p2) as u64, dec_val(p3) as u64]);
    let m = finalize_build(st8);
    assert(m is Ok);
    assert(m->Ok_0 =~~= ObjectModel {
        has_feature_done: false,
        has_reset: None,
        has_reset_from: None,
        data_size: msg_tok,
        object_type: ObjectTypeModel::Commit(
            CommitModel {
                commit_ref: ref_rest,
                mark: dec_val(mark_tok) as u64,
                original_oid: oid,
                author: None,
                committer: pm,
                message: msg,
                merges: seq![dec_val(p1) as u64, dec_val(p2) as u64, dec_val(p3) as u64],
                fileops: seq![],
            },
        ),
    });
}

} // verus!
