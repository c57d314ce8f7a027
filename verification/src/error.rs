//! The library's error type. Each variant carries the user-visible detail;
//! `message` renders it the way the application shows errors to the user.

use crate::text::{concat, from_chars, to_chars};
use vstd::prelude::*;

verus! {

/// Errors of the proxy manager.
#[derive(Debug, Clone)]
pub enum AppError {
    /// File, listener or child-process failures.
    Io(String),
    /// SQLite failures.
    Database(String),
    /// JSON encoding or decoding failures.
    Json(String),
    /// HTTP client failures.
    Http(String),
    /// An invalid URL.
    Url(String),
    /// System keychain failures.
    Keyring(String),
    /// SSH handshake, authentication or channel failures.
    Ssh(String),
    /// Encryption or decryption failures.
    Crypto(String),
    /// A resource that does not exist.
    NotFound(String),
    /// Invalid user input or configuration.
    InvalidInput(String),
    /// A runtime conflict such as a port already in use.
    Conflict(String),
    /// A capability the current platform lacks.
    Unsupported(String),
    /// Any other user-visible error.
    Message(String),
}

/// The library's result type.
pub type AppResult<T> = Result<T, AppError>;

impl AppError {
    /// The label that precedes the detail when the error is shown.
    pub open spec fn label(&self) -> Seq<char> {
        match self {
            AppError::Io(_) => "IO 错误: "@,
            AppError::Database(_) => "数据库错误: "@,
            AppError::Json(_) => "JSON 错误: "@,
            AppError::Http(_) => "HTTP 请求失败: "@,
            AppError::Url(_) => "URL 无效: "@,
            AppError::Keyring(_) => "系统钥匙串错误: "@,
            AppError::Ssh(_) => "SSH 错误: "@,
            AppError::Crypto(_) => "敏感信息加密失败: "@,
            AppError::NotFound(_) => "未找到: "@,
            AppError::InvalidInput(_) => "参数无效: "@,
            AppError::Conflict(_) => "运行态冲突: "@,
            AppError::Unsupported(_) => "当前平台暂不支持: "@,
            AppError::Message(_) => ""@,
        }
    }

    /// The detail the error carries.
    pub open spec fn detail(&self) -> Seq<char> {
        match self {
            AppError::Io(m) => m@,
            AppError::Database(m) => m@,
            AppError::Json(m) => m@,
            AppError::Http(m) => m@,
            AppError::Url(m) => m@,
            AppError::Keyring(m) => m@,
            AppError::Ssh(m) => m@,
            AppError::Crypto(m) => m@,
            AppError::NotFound(m) => m@,
            AppError::InvalidInput(m) => m@,
            AppError::Conflict(m) => m@,
            AppError::Unsupported(m) => m@,
            AppError::Message(m) => m@,
        }
    }

    /// The text shown to the user: the label followed by the detail.
    pub fn message(&self) -> (r: String)
        ensures
            r@ == self.label() + self.detail(),
    {
        let (label, detail): (&str, &String) = match self {
            AppError::Io(m) => ("IO 错误: ", m),
            AppError::Database(m) => ("数据库错误: ", m),
            AppError::Json(m) => ("JSON 错误: ", m),
            AppError::Http(m) => ("HTTP 请求失败: ", m),
            AppError::Url(m) => ("URL 无效: ", m),
            AppError::Keyring(m) => ("系统钥匙串错误: ", m),
            AppError::Ssh(m) => ("SSH 错误: ", m),
            AppError::Crypto(m) => ("敏感信息加密失败: ", m),
            AppError::NotFound(m) => ("未找到: ", m),
            AppError::InvalidInput(m) => ("参数无效: ", m),
            AppError::Conflict(m) => ("运行态冲突: ", m),
            AppError::Unsupported(m) => ("当前平台暂不支持: ", m),
            AppError::Message(m) => ("", m),
        };
        let l = to_chars(label);
        let d = to_chars(detail.as_str());
        let all = concat(l.as_slice(), d.as_slice());
        from_chars(all.as_slice())
    }
}

/// An invalid-input error with the given detail.
pub fn invalid(detail: &str) -> (e: AppError)
    ensures
        e matches AppError::InvalidInput(m) && m@ == detail@,
{
    AppError::InvalidInput(crate::text::to_owned_string(detail))
}

} // verus!
