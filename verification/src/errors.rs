//! What can go wrong, and how it is worded.
use crate::text::concat;
use vstd::prelude::*;

verus! {

/// The kinds of input/output failure that decisions depend on.
#[derive(Clone, Copy, Debug, PartialEq, Eq, Structural)]
pub enum IoKind {
    NotFound,
    InvalidInput,
    InvalidData,
    AddrInUse,
    TimedOut,
    Other,
}

/// A failed input/output operation: its kind, the code of the operating system where there is
/// one, and its wording.
#[derive(Clone, Debug, PartialEq, Eq)]
pub struct IoError {
    pub kind: IoKind,
    pub code: Option<i32>,
    pub message: String,
}

/// What an [`IoError`] says.
pub struct IoErrorView {
    pub kind: IoKind,
    pub code: Option<i32>,
    pub message: Seq<char>,
}

impl View for IoError {
    type V = IoErrorView;

    open spec fn view(&self) -> IoErrorView {
        IoErrorView { kind: self.kind, code: self.code, message: self.message@ }
    }
}

/// An [`IoError`] that the library itself raises: it has no code of the operating system.
pub open spec fn raised(kind: IoKind, message: Seq<char>) -> IoErrorView {
    IoErrorView { kind, code: None, message }
}

impl IoError {
    pub fn new(kind: IoKind, message: &str) -> (error: IoError)
        ensures
            error@ == raised(kind, message@),
    {
        IoError { kind, code: None, message: message.to_owned() }
    }
}

/// Why an operation on the index failed.
#[derive(Debug)]
pub enum SearchError {
    /// The stored index refused the operation.
    Database(String),
    /// A path cannot be accessed.
    Io { path: String, source: String },
    /// The root to index is not a directory.
    NotDirectory(String),
    /// The query holds no search term.
    EmptyQuery,
    /// The query is longer than the limit.
    QueryTooLong,
    /// The query holds more terms than the limit.
    TooManyTerms,
}

/// What a [`SearchError`] says.
pub enum SearchErrorView {
    Database(Seq<char>),
    Io { path: Seq<char>, source: Seq<char> },
    NotDirectory(Seq<char>),
    EmptyQuery,
    QueryTooLong,
    TooManyTerms,
}

impl View for SearchError {
    type V = SearchErrorView;

    open spec fn view(&self) -> SearchErrorView {
        match *self {
            SearchError::Database(detail) => SearchErrorView::Database(detail@),
            SearchError::Io { path, source } => SearchErrorView::Io {
                path: path@,
                source: source@,
            },
            SearchError::NotDirectory(path) => SearchErrorView::NotDirectory(path@),
            SearchError::EmptyQuery => SearchErrorView::EmptyQuery,
            SearchError::QueryTooLong => SearchErrorView::QueryTooLong,
            SearchError::TooManyTerms => SearchErrorView::TooManyTerms,
        }
    }
}

/// The most characters a query may hold.
pub const MAX_QUERY_CHARS: usize = 512;

/// The most terms a query may hold.
pub const MAX_QUERY_TERMS: usize = 16;

impl SearchErrorView {
    /// The wording of an error.
    pub open spec fn wording(self) -> Seq<char> {
        match self {
            SearchErrorView::Database(detail) => "数据库错误："@ + detail,
            SearchErrorView::Io { path, source } => "无法访问路径 "@ + path + ": "@ + source,
            SearchErrorView::NotDirectory(path) => "索引根目录不是目录："@ + path,
            SearchErrorView::EmptyQuery => "搜索词不能为空"@,
            SearchErrorView::QueryTooLong => "搜索词不能超过 512 个字符"@,
            SearchErrorView::TooManyTerms => "搜索词不能超过 16 个"@,
        }
    }
}

impl SearchError {
    /// The wording of the error.
    pub fn message(&self) -> (text: String)
        ensures
            text@ == self@.wording(),
    {
        match self {
            SearchError::Database(detail) => concat("数据库错误：", detail.as_str()),
            SearchError::Io { path, source } => {
                let mut text = concat("无法访问路径 ", path.as_str());
                text.append(": ");
                text.append(source.as_str());
                text
            },
            SearchError::NotDirectory(path) => concat("索引根目录不是目录：", path.as_str()),
            SearchError::EmptyQuery => "搜索词不能为空".to_owned(),
            SearchError::QueryTooLong => "搜索词不能超过 512 个字符".to_owned(),
            SearchError::TooManyTerms => "搜索词不能超过 16 个".to_owned(),
        }
    }
}

} // verus!
