//! The literal tokens of the export/import wire format, as byte strings,
//! each with a spec-level value and an executable constructor.

use vstd::prelude::*;

verus! {

/// The bytes of `"commit "`.
pub open spec fn commit_prefix() -> Seq<u8> {
    seq![99u8, 111u8, 109u8, 109u8, 105u8, 116u8, 32u8]
}

pub fn commit_prefix_bytes() -> (r: Vec<u8>)
    ensures
        r@ =~= commit_prefix(),
{
    let v: Vec<u8> = vec![99u8, 111u8, 109u8, 109u8, 105u8, 116u8, 32u8];
    v
}

/// The bytes of `"blob"`.
pub open spec fn blob_word() -> Seq<u8> {
    seq![98u8, 108u8, 111u8, 98u8]
}

pub fn blob_word_bytes() -> (r: Vec<u8>)
    ensures
        r@ =~= blob_word(),
{
    let v: Vec<u8> = vec![98u8, 108u8, 111u8, 98u8];
    v
}

/// The bytes of `"reset "`.
pub open spec fn reset_prefix() -> Seq<u8> {
    seq![114u8, 101u8, 115u8, 101u8, 116u8, 32u8]
}

pub fn reset_prefix_bytes() -> (r: Vec<u8>)
    ensures
        r@ =~= reset_prefix(),
{
    let v: Vec<u8> = vec![114u8, 101u8, 115u8, 101u8, 116u8, 32u8];
    v
}

/// The bytes of `"feature "`.
pub open spec fn feature_prefix() -> Seq<u8> {
    seq![102u8, 101u8, 97u8, 116u8, 117u8, 114u8, 101u8, 32u8]
}

pub fn feature_prefix_bytes() -> (r: Vec<u8>)
    ensures
        r@ =~= feature_prefix(),
{
    let v: Vec<u8> = vec![102u8, 101u8, 97u8, 116u8, 117u8, 114u8, 101u8, 32u8];
    v
}

/// The bytes of `"feature done"`.
pub open spec fn feature_done_line() -> Seq<u8> {
    seq![102u8, 101u8, 97u8, 116u8, 117u8, 114u8, 101u8, 32u8, 100u8, 111u8, 110u8, 101u8]
}

pub fn feature_done_line_bytes() -> (r: Vec<u8>)
    ensures
        r@ =~= feature_done_line(),
{
    let v: Vec<u8> = vec![102u8, 101u8, 97u8, 116u8, 117u8, 114u8, 101u8, 32u8, 100u8, 111u8, 110u8, 101u8];
    v
}

/// The bytes of `"from "`.
pub open spec fn from_prefix() -> Seq<u8> {
    seq![102u8, 114u8, 111u8, 109u8, 32u8]
}

pub fn from_prefix_bytes() -> (r: Vec<u8>)
    ensures
        r@ =~= from_prefix(),
{
    let v: Vec<u8> = vec![102u8, 114u8, 111u8, 109u8, 32u8];
    v
}

/// The bytes of `"mark :"`.
pub open spec fn mark_prefix() -> Seq<u8> {
    seq![109u8, 97u8, 114u8, 107u8, 32u8, 58u8]
}

pub fn mark_prefix_bytes() -> (r: Vec<u8>)
    ensures
        r@ =~= mark_prefix(),
{
    let v: Vec<u8> = vec![109u8, 97u8, 114u8, 107u8, 32u8, 58u8];
    v
}

/// The bytes of `"original-oid "`.
pub open spec fn original_oid_prefix() -> Seq<u8> {
    seq![111u8, 114u8, 105u8, 103u8, 105u8, 110u8, 97u8, 108u8, 45u8, 111u8, 105u8, 100u8, 32u8]
}

pub fn original_oid_prefix_bytes() -> (r: Vec<u8>)
    ensures
        r@ =~= original_oid_prefix(),
{
    let v: Vec<u8> = vec![111u8, 114u8, 105u8, 103u8, 105u8, 110u8, 97u8, 108u8, 45u8, 111u8, 105u8, 100u8, 32u8];
    v
}

/// The bytes of `"author "`.
pub open spec fn author_prefix() -> Seq<u8> {
    seq![97u8, 117u8, 116u8, 104u8, 111u8, 114u8, 32u8]
}

pub fn author_prefix_bytes() -> (r: Vec<u8>)
    ensures
        r@ =~= author_prefix(),
{
    let v: Vec<u8> = vec![97u8, 117u8, 116u8, 104u8, 111u8, 114u8, 32u8];
    v
}

/// The bytes of `"committer "`.
pub open spec fn committer_prefix() -> Seq<u8> {
    seq![99u8, 111u8, 109u8, 109u8, 105u8, 116u8, 116u8, 101u8, 114u8, 32u8]
}

pub fn committer_prefix_bytes() -> (r: Vec<u8>)
    ensures
        r@ =~= committer_prefix(),
{
    let v: Vec<u8> = vec![99u8, 111u8, 109u8, 109u8, 105u8, 116u8, 116u8, 101u8, 114u8, 32u8];
    v
}

/// The bytes of `"data "`.
pub open spec fn data_prefix() -> Seq<u8> {
    seq![100u8, 97u8, 116u8, 97u8, 32u8]
}

pub fn data_prefix_bytes() -> (r: Vec<u8>)
    ensures
        r@ =~= data_prefix(),
{
    let v: Vec<u8> = vec![100u8, 97u8, 116u8, 97u8, 32u8];
    v
}

/// The bytes of `"from :"`.
pub open spec fn from_mark_prefix() -> Seq<u8> {
    seq![102u8, 114u8, 111u8, 109u8, 32u8, 58u8]
}

pub fn from_mark_prefix_bytes() -> (r: Vec<u8>)
    ensures
        r@ =~= from_mark_prefix(),
{
    let v: Vec<u8> = vec![102u8, 114u8, 111u8, 109u8, 32u8, 58u8];
    v
}

/// The bytes of `"merge :"`.
pub open spec fn merge_mark_prefix() -> Seq<u8> {
    seq![109u8, 101u8, 114u8, 103u8, 101u8, 32u8, 58u8]
}

pub fn merge_mark_prefix_bytes() -> (r: Vec<u8>)
    ensures
        r@ =~= merge_mark_prefix(),
{
    let v: Vec<u8> = vec![109u8, 101u8, 114u8, 103u8, 101u8, 32u8, 58u8];
    v
}

/// The bytes of `"M "`.
pub open spec fn modify_prefix() -> Seq<u8> {
    seq![77u8, 32u8]
}

pub fn modify_prefix_bytes() -> (r: Vec<u8>)
    ensures
        r@ =~= modify_prefix(),
{
    let v: Vec<u8> = vec![77u8, 32u8];
    v
}

/// The bytes of `"D "`.
pub open spec fn delete_prefix() -> Seq<u8> {
    seq![68u8, 32u8]
}

pub fn delete_prefix_bytes() -> (r: Vec<u8>)
    ensures
        r@ =~= delete_prefix(),
{
    let v: Vec<u8> = vec![68u8, 32u8];
    v
}

/// The bytes of `"C "`.
pub open spec fn copy_prefix() -> Seq<u8> {
    seq![67u8, 32u8]
}

pub fn copy_prefix_bytes() -> (r: Vec<u8>)
    ensures
        r@ =~= copy_prefix(),
{
    let v: Vec<u8> = vec![67u8, 32u8];
    v
}

/// The bytes of `"R "`.
pub open spec fn rename_prefix() -> Seq<u8> {
    seq![82u8, 32u8]
}

pub fn rename_prefix_bytes() -> (r: Vec<u8>)
    ensures
        r@ =~= rename_prefix(),
{
    let v: Vec<u8> = vec![82u8, 32u8];
    v
}

/// The bytes of `"N "`.
pub open spec fn note_prefix() -> Seq<u8> {
    seq![78u8, 32u8]
}

pub fn note_prefix_bytes() -> (r: Vec<u8>)
    ensures
        r@ =~= note_prefix(),
{
    let v: Vec<u8> = vec![78u8, 32u8];
    v
}

/// The bytes of `"deleteall"`.
pub open spec fn deleteall_word() -> Seq<u8> {
    seq![100u8, 101u8, 108u8, 101u8, 116u8, 101u8, 97u8, 108u8, 108u8]
}

pub fn deleteall_word_bytes() -> (r: Vec<u8>)
    ensures
        r@ =~= deleteall_word(),
{
    let v: Vec<u8> = vec![100u8, 101u8, 108u8, 101u8, 116u8, 101u8, 97u8, 108u8, 108u8];
    v
}

/// The bytes of `"<"`.
pub open spec fn email_open() -> Seq<u8> {
    seq![60u8]
}

pub fn email_open_bytes() -> (r: Vec<u8>)
    ensures
        r@ =~= email_open(),
{
    let v: Vec<u8> = vec![60u8];
    v
}

/// The bytes of `"> "`.
pub open spec fn email_close() -> Seq<u8> {
    seq![62u8, 32u8]
}

pub fn email_close_bytes() -> (r: Vec<u8>)
    ensures
        r@ =~= email_close(),
{
    let v: Vec<u8> = vec![62u8, 32u8];
    v
}

/// The bytes of `"\n"`.
pub open spec fn newline() -> Seq<u8> {
    seq![10u8]
}

} // verus!
