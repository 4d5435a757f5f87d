//! File errors, and the pure parts of file handling: Markdown detection and
//! building the workspace tree from scanned paths.

pub mod io;
pub mod links;
pub mod scanner;
pub mod watcher;

use vstd::prelude::*;
use crate::i18n::{Language, LocalizedMessage, operation_label, spec_operation_label};
use crate::text::str_eq;

verus! {

/// The kinds of I/O failure that the library tells apart; any other kind
/// carries std's description of it.
#[derive(Clone, Debug, PartialEq, Eq)]
pub enum IoErrorKind {
    NotFound,
    PermissionDenied,
    AlreadyExists,
    InvalidInput,
    InvalidData,
    Other,
    Described(String),
}

/// std's description of a kind (`ErrorKind`'s `Display`).
pub open spec fn spec_kind_description(kind: IoErrorKind) -> Seq<char> {
    match kind {
        IoErrorKind::NotFound => "entity not found"@,
        IoErrorKind::PermissionDenied => "permission denied"@,
        IoErrorKind::AlreadyExists => "entity already exists"@,
        IoErrorKind::InvalidInput => "invalid input parameter"@,
        IoErrorKind::InvalidData => "invalid data"@,
        IoErrorKind::Other => "other error"@,
        IoErrorKind::Described(d) => d@,
    }
}

impl IoErrorKind {
    /// std's description of this kind.
    pub fn description(&self) -> (r: String)
        ensures
            r@ == spec_kind_description(*self),
    {
        match self {
            IoErrorKind::NotFound => String::from_str("entity not found"),
            IoErrorKind::PermissionDenied => String::from_str("permission denied"),
            IoErrorKind::AlreadyExists => String::from_str("entity already exists"),
            IoErrorKind::InvalidInput => String::from_str("invalid input parameter"),
            IoErrorKind::InvalidData => String::from_str("invalid data"),
            IoErrorKind::Other => String::from_str("other error"),
            IoErrorKind::Described(d) => d.clone(),
        }
    }
}

/// Why reading, writing or inspecting a file failed.
#[derive(Clone, Debug, PartialEq, Eq)]
pub enum FileError {
    NotMarkdown { path: String },
    InvalidUtf8 { path: String, operation: &'static str },
    NotFound { path: String, operation: &'static str },
    PermissionDenied { path: String, operation: &'static str },
    Io { path: String, operation: &'static str, kind: IoErrorKind },
}

/// `e` is the error for an I/O failure of `kind` while doing `operation`
/// on `path`: invalid data means invalid UTF-8; missing files and denied
/// permissions have variants of their own.
pub open spec fn is_io_error(e: FileError, path: Seq<char>, operation: &'static str, kind: IoErrorKind) -> bool {
    match kind {
        IoErrorKind::InvalidData => e matches FileError::InvalidUtf8 { path: p, operation: o }
            && p@ == path && o == operation,
        IoErrorKind::NotFound => e matches FileError::NotFound { path: p, operation: o }
            && p@ == path && o == operation,
        IoErrorKind::PermissionDenied => e matches FileError::PermissionDenied { path: p, operation: o }
            && p@ == path && o == operation,
        _ => e matches FileError::Io { path: p, operation: o, kind: k }
            && p@ == path && o == operation && k == kind,
    }
}

impl FileError {
    /// The error for an I/O failure of `kind` while doing `operation` on
    /// `path` (see `is_io_error`).
    pub fn from_io(path: &str, operation: &'static str, kind: IoErrorKind) -> (r: FileError)
        ensures
            is_io_error(r, path@, operation, kind),
    {
        match kind {
            IoErrorKind::InvalidData => FileError::InvalidUtf8 { path: path.to_string(), operation },
            IoErrorKind::NotFound => FileError::NotFound { path: path.to_string(), operation },
            IoErrorKind::PermissionDenied => FileError::PermissionDenied { path: path.to_string(), operation },
            kind => FileError::Io { path: path.to_string(), operation, kind },
        }
    }

    /// A failure of `operation` on `path` with no more specific kind.
    pub fn other(path: &str, operation: &'static str) -> (r: FileError)
        ensures
            r matches FileError::Io { path: p, operation: o, kind: IoErrorKind::Other } && p@ == path@ && o == operation,
    {
        FileError::Io { path: path.to_string(), operation, kind: IoErrorKind::Other }
    }

    /// The English message (what `Display` shows in the application).
    pub fn message(&self) -> (r: String)
        ensures
            r@ == spec_file_error_message(*self, Language::English),
    {
        self.localized_message(Language::English)
    }
}

/// The Chinese description of an I/O failure kind.
pub open spec fn spec_kind_chinese(kind: IoErrorKind) -> Seq<char> {
    match kind {
        IoErrorKind::NotFound => "找不到文件"@,
        IoErrorKind::PermissionDenied => "没有权限"@,
        IoErrorKind::AlreadyExists => "文件已存在"@,
        IoErrorKind::InvalidInput => "输入无效"@,
        IoErrorKind::InvalidData => "数据无效"@,
        _ => "系统错误（"@ + spec_kind_description(kind) + "）"@,
    }
}

/// The description of an I/O failure kind in `language`.
pub open spec fn spec_io_error_kind(language: Language, kind: IoErrorKind) -> Seq<char> {
    match language {
        Language::English => spec_kind_description(kind),
        Language::Chinese => spec_kind_chinese(kind),
    }
}

/// The description of `kind` in `language`.
pub fn io_error_kind(language: Language, kind: &IoErrorKind) -> (r: String)
    ensures
        r@ == spec_io_error_kind(language, *kind),
{
    match language {
        Language::English => kind.description(),
        Language::Chinese => match kind {
            IoErrorKind::NotFound => String::from_str("找不到文件"),
            IoErrorKind::PermissionDenied => String::from_str("没有权限"),
            IoErrorKind::AlreadyExists => String::from_str("文件已存在"),
            IoErrorKind::InvalidInput => String::from_str("输入无效"),
            IoErrorKind::InvalidData => String::from_str("数据无效"),
            _ => {
                let d = kind.description();
                let mut s = String::from_str("系统错误（");
                s.append(d.as_str());
                s.append("）");
                s
            },
        },
    }
}

/// The message for `e` in `language`.
pub open spec fn spec_file_error_message(e: FileError, language: Language) -> Seq<char> {
    match language {
        Language::English => match e {
            FileError::NotMarkdown { path } =>
                "Could not open "@ + path@ + ": expected a Markdown file (.md or .markdown)."@,
            FileError::InvalidUtf8 { .. } => "The file is not valid UTF-8."@,
            FileError::NotFound { path, operation } =>
                "Could not "@ + operation@ + " "@ + path@ + ": file not found."@,
            FileError::PermissionDenied { path, operation } =>
                "Could not "@ + operation@
                    + ": permission denied. Use Open to choose the file or folder and grant access. Path: "@
                    + path@,
            FileError::Io { path, operation, kind } =>
                "Could not "@ + operation@ + " "@ + path@ + ": "@ + spec_kind_description(kind) + "."@,
        },
        Language::Chinese => match e {
            FileError::NotMarkdown { path } =>
                "无法打开 "@ + path@ + "：需要 Markdown 文件（.md 或 .markdown）。"@,
            FileError::InvalidUtf8 { path, .. } => "文件 "@ + path@ + " 不是有效的 UTF-8 编码。"@,
            FileError::NotFound { path, operation } =>
                "无法"@ + spec_operation_label(language, operation@) + " "@ + path@ + "：找不到文件。"@,
            FileError::PermissionDenied { path, operation } =>
                "无法"@ + spec_operation_label(language, operation@)
                    + "：没有权限。请使用“打开”选择该文件或文件夹以授予访问权限。路径："@ + path@,
            FileError::Io { path, operation, kind } =>
                "无法"@ + spec_operation_label(language, operation@) + " "@ + path@ + "："@
                    + spec_kind_chinese(kind) + "。"@,
        },
    }
}

impl LocalizedMessage for FileError {
    fn localized_message(&self, language: Language) -> (r: String)
        ensures
            r@ == spec_file_error_message(*self, language),
    {
        match language {
            Language::English => match self {
                FileError::NotMarkdown { path } => {
                    let mut s = String::from_str("Could not open ");
                    s.append(path.as_str());
                    s.append(": expected a Markdown file (.md or .markdown).");
                    s
                },
                FileError::InvalidUtf8 { .. } => String::from_str("The file is not valid UTF-8."),
                FileError::NotFound { path, operation } => {
                    let mut s = String::from_str("Could not ");
                    s.append(operation);
                    s.append(" ");
                    s.append(path.as_str());
                    s.append(": file not found.");
                    s
                },
                FileError::PermissionDenied { path, operation } => {
                    let mut s = String::from_str("Could not ");
                    s.append(operation);
                    s.append(": permission denied. Use Open to choose the file or folder and grant access. Path: ");
                    s.append(path.as_str());
                    s
                },
                FileError::Io { path, operation, kind } => {
                    let d = kind.description();
                    let mut s = String::from_str("Could not ");
                    s.append(operation);
                    s.append(" ");
                    s.append(path.as_str());
                    s.append(": ");
                    s.append(d.as_str());
                    s.append(".");
                    s
                },
            },
            Language::Chinese => match self {
                FileError::NotMarkdown { path } => {
                    let mut s = String::from_str("无法打开 ");
                    s.append(path.as_str());
                    s.append("：需要 Markdown 文件（.md 或 .markdown）。");
                    s
                },
                FileError::InvalidUtf8 { path, .. } => {
                    let mut s = String::from_str("文件 ");
                    s.append(path.as_str());
                    s.append(" 不是有效的 UTF-8 编码。");
                    s
                },
                FileError::NotFound { path, operation } => {
                    let label = operation_label(language, operation);
                    let mut s = String::from_str("无法");
                    s.append(label.as_str());
                    s.append(" ");
                    s.append(path.as_str());
                    s.append("：找不到文件。");
                    s
                },
                FileError::PermissionDenied { path, operation } => {
                    let label = operation_label(language, operation);
                    let mut s = String::from_str("无法");
                    s.append(label.as_str());
                    s.append("：没有权限。请使用“打开”选择该文件或文件夹以授予访问权限。路径：");
                    s.append(path.as_str());
                    s
                },
                FileError::Io { path, operation, kind } => {
                    let label = operation_label(language, operation);
                    let k = io_error_kind(language, kind);
                    let mut s = String::from_str("无法");
                    s.append(label.as_str());
                    s.append(" ");
                    s.append(path.as_str());
                    s.append("：");
                    s.append(k.as_str());
                    s.append("。");
                    s
                },
            },
        }
    }
}

} // verus!
