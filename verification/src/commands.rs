//! What the engine reports about the content of a file.

use vstd::prelude::*;
use vstd::utf8::{decode_utf8, valid_utf8};
use vstd::slice::*;
use crate::snapshot::opt_view;
use base64::engine::Engine;

verus! {

/// What is known about a file's content.
#[derive(Debug)]
pub struct FileInfo {
    /// `None` where the file was deleted or has no meaningful content.
    /// Where `mime_type` is set, the content is base64 text.
    pub content: Option<String>,
    /// The base name of the file.
    pub file_name: String,
    /// The size of the content in bytes; `None` only for a deleted file.
    pub size: Option<usize>,
    /// `None` for a text file, else the inferred type of a binary file.
    pub mime_type: Option<String>,
}

/// What the content sniffer found.
#[derive(Debug, Clone, PartialEq, Eq)]
pub struct InferredType {
    /// Whether the type is an image type.
    pub is_image: bool,
    /// The MIME type.
    pub mime_type: String,
}

/// The type that the content sniffer reads off the first bytes of a
/// content: whether it is an image, and its MIME type.
pub uninterp spec fn inferred_type(content: Seq<u8>) -> Option<(bool, Seq<char>)>;

/// The base64 text of a content, in the standard alphabet with padding.
pub uninterp spec fn base64_text(content: Seq<u8>) -> Seq<char>;

/// Whether the line-ending statistics of a content are those of a binary
/// file.
pub uninterp spec fn binary_statistics(content: Seq<u8>) -> bool;

/// `Stats::from_bytes` and `Stats::is_binary` of `gix-filter`: whether the
/// statistics of the content are typical for a binary file, which depends
/// on its bytes alone.
#[verifier::external_body]
fn has_binary_statistics(content: &[u8]) -> (r: bool)
    ensures
        r == binary_statistics(content@),
{
    gix_filter::eol::Stats::from_bytes(content).is_binary()
}

/// How many bytes at the start of a content are looked at to tell binary
/// from text.
pub const BINARY_PROBE_LEN: usize = 8000;

/// Whether a content looks binary: whether the statistics of its first
/// 8000 bytes do.
pub open spec fn looks_binary_spec(content: Seq<u8>) -> bool {
    binary_statistics(
        content.take(
            if content.len() < BINARY_PROBE_LEN {
                content.len() as int
            } else {
                BINARY_PROBE_LEN as int
            },
        ),
    )
}

/// `infer::get` with `matcher_type` and `mime_type`: the type of the
/// content, which depends on its bytes alone.
#[verifier::external_body]
fn infer_type(content: &[u8]) -> (r: Option<InferredType>)
    ensures
        (match r {
            Some(t) => Some((t.is_image, t.mime_type@)),
            None => None,
        }) == inferred_type(content@),
{
    infer::get(content).map(
        |kind|
            InferredType {
                is_image: matches!(kind.matcher_type(), infer::MatcherType::Image),
                mime_type: kind.mime_type().to_owned(),
            },
    )
}

/// `Engine::encode` of `base64` on the standard engine: the base64 text of
/// the content, which depends on its bytes alone.
#[verifier::external_body]
fn base64_encode(content: &[u8]) -> (r: String)
    ensures
        r@ == base64_text(content@),
{
    base64::engine::general_purpose::STANDARD.encode(content)
}

/// `String::from_utf8` of the standard library: the text that the bytes
/// encode, where they are valid UTF-8.
#[verifier::external_body]
fn utf8_text(content: &[u8]) -> (r: Option<String>)
    ensures
        match r {
            Some(s) => valid_utf8(content@) && s@ == decode_utf8(content@),
            None => !valid_utf8(content@),
        },
{
    String::from_utf8(content.to_vec()).ok()
}

impl FileInfo {
    /// The report on a deleted file: nothing is known.
    pub fn deleted() -> (r: Self)
        ensures
            r.content is None,
            r.file_name@.len() == 0,
            r.size is None,
            r.mime_type is None,
    {
        FileInfo { content: None, file_name: String::new(), size: None, mime_type: None }
    }

    /// Whether a content looks binary.
    pub fn is_binary(content: &[u8]) -> (r: bool)
        ensures
            r == looks_binary_spec(content@),
    {
        let end = if content.len() < BINARY_PROBE_LEN {
            content.len()
        } else {
            BINARY_PROBE_LEN
        };
        let partial_content = slice_subrange(content, 0, end);
        assert(partial_content@ =~= content@.take(end as int));
        has_binary_statistics(partial_content)
    }

    /// The report on a file with the given content: that of a binary file
    /// where the content looks binary, else that of a text file.
    pub fn from_content(file_name: &str, content: &[u8]) -> (r: Self)
        ensures
            looks_binary_spec(content@) ==> r.is_image_or_empty(file_name@, content@),
            !looks_binary_spec(content@) ==> r.is_utf8_text_or_binary(file_name@, content@),
    {
        FileInfo::from_content_with(file_name, content, FileInfo::is_binary(content))
    }

    /// The report on a file with the given content, where it is known
    /// whether the content looks binary.
    pub fn from_content_with(file_name: &str, content: &[u8], looks_binary: bool) -> (r: Self)
        ensures
            looks_binary ==> r.is_image_or_empty(file_name@, content@),
            !looks_binary ==> r.is_utf8_text_or_binary(file_name@, content@),
    {
        if looks_binary {
            FileInfo::image_or_empty(file_name, content)
        } else {
            FileInfo::utf8_text_or_binary(file_name, content)
        }
    }

    /// Whether this is the report on a text file with the given name and
    /// content: the content is its text where it is valid UTF-8, and absent
    /// otherwise.
    pub open spec fn is_utf8_text_or_binary(&self, file_name: Seq<char>, content: Seq<u8>) -> bool {
        &&& opt_view(self.content) == (if valid_utf8(content) {
            Some(decode_utf8(content))
        } else {
            None
        })
        &&& self.file_name@ == file_name
        &&& self.size == Some(content.len() as usize)
        &&& self.mime_type is None
    }

    /// The report on a file that should be text.
    pub fn utf8_text_or_binary(file_name: &str, content: &[u8]) -> (r: Self)
        ensures
            r.is_utf8_text_or_binary(file_name@, content@),
    {
        FileInfo {
            content: utf8_text(content),
            file_name: file_name.to_owned(),
            size: Some(content.len()),
            mime_type: None,
        }
    }

    /// The report on a binary file of which only the length is known.
    pub fn binary(file_name: &str, len: u64) -> (r: Self)
        ensures
            r.content is None,
            r.file_name@ == file_name@,
            r.size == Some(len as usize),
            r.mime_type is None,
    {
        FileInfo {
            content: None,
            file_name: file_name.to_owned(),
            size: Some(#[verifier::truncate] (len as usize)),
            mime_type: None,
        }
    }

    /// Whether this is the report on a binary file with the given name and
    /// content: an image carries its base64 text and its type, anything
    /// else carries neither.
    pub open spec fn is_image_or_empty(&self, file_name: Seq<char>, content: Seq<u8>) -> bool {
        &&& self.file_name@ == file_name
        &&& self.size == Some(content.len() as usize)
        &&& match inferred_type(content) {
            Some((true, mime)) => opt_view(self.content) == Some(base64_text(content)) && opt_view(
                self.mime_type,
            ) == Some(mime),
            _ => self.content is None && self.mime_type is None,
        }
    }

    /// The report on a binary file whose type was sniffed as `kind`.
    pub fn image_or_empty_from(file_name: &str, content: &[u8], kind: Option<InferredType>) -> (r:
        Self)
        ensures
            r.file_name@ == file_name@,
            r.size == Some(content@.len() as usize),
            match kind {
                Some(t) => if t.is_image {
                    opt_view(r.content) == Some(base64_text(content@)) && opt_view(r.mime_type)
                        == Some(t.mime_type@)
                } else {
                    r.content is None && r.mime_type is None
                },
                None => r.content is None && r.mime_type is None,
            },
    {
        let mut file_info = FileInfo {
            content: None,
            file_name: file_name.to_owned(),
            size: Some(content.len()),
            mime_type: None,
        };
        if let Some(t) = kind {
            if t.is_image {
                file_info.content = Some(base64_encode(content));
                file_info.mime_type = Some(t.mime_type);
            }
        }
        file_info
    }

    /// The report on a file that looks binary.
    pub fn image_or_empty(file_name: &str, content: &[u8]) -> (r: Self)
        ensures
            r.is_image_or_empty(file_name@, content@),
    {
        FileInfo::image_or_empty_from(file_name, content, infer_type(content))
    }
}

/// What lies at a path of the worktree.
#[derive(Debug, Clone, Copy, PartialEq, Eq, Structural)]
pub enum EntryKind {
    /// A regular file.
    File,
    /// A symbolic link.
    Symlink,
    /// A directory.
    Directory,
    /// Something else, of the given length.
    Other { len: u64 },
    /// Nothing.
    Missing,
}

/// How a path of the workspace is read.
#[derive(Debug, Clone, Copy, PartialEq, Eq, Structural)]
pub enum WorkspaceRead {
    /// The path leads out of the worktree: refuse.
    RefuseOutsideWorktree,
    /// Read the file and report on its content.
    ReadFile,
    /// Read the target of the link and report on it as text.
    ReadLink,
    /// The path is a directory: refuse.
    RefuseDirectory,
    /// Report a binary file of the given length.
    Binary { len: u64 },
    /// The file was deleted: read it from the index, or else from the
    /// commit that is checked out.
    ReadFromIndexOrHead,
}

/// Decide how to read a path of the workspace, given whether the resolved
/// path lies in the worktree and what lies there.
pub fn plan_workspace_read(in_worktree: bool, kind: EntryKind) -> (r: WorkspaceRead)
    ensures
        r == (if !in_worktree {
            WorkspaceRead::RefuseOutsideWorktree
        } else {
            match kind {
                EntryKind::File => WorkspaceRead::ReadFile,
                EntryKind::Symlink => WorkspaceRead::ReadLink,
                EntryKind::Directory => WorkspaceRead::RefuseDirectory,
                EntryKind::Other { len } => WorkspaceRead::Binary { len },
                EntryKind::Missing => WorkspaceRead::ReadFromIndexOrHead,
            }
        }),
{
    if !in_worktree {
        return WorkspaceRead::RefuseOutsideWorktree;
    }
    match kind {
        EntryKind::File => WorkspaceRead::ReadFile,
        EntryKind::Symlink => WorkspaceRead::ReadLink,
        EntryKind::Directory => WorkspaceRead::RefuseDirectory,
        EntryKind::Other { len } => WorkspaceRead::Binary { len },
        EntryKind::Missing => WorkspaceRead::ReadFromIndexOrHead,
    }
}

} // verus!
