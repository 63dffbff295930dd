//! Application errors, their stable codes, HTTP status numbers, messages and
//! the JSON error body that the HTTP layer answers with.

use vstd::prelude::*;

verus! {

/// Everything that a request can fail with.
#[derive(Debug, Clone)]
pub enum AppError {
    ClientNotFound,
    DuplicateDocumentNumber,
    InvalidClientData(String),
    OverdraftLimitExceeded,
    InvalidAmount,
    InvalidClientId,
    StorageError(String),
    InternalError,
}

/// Body of an error answer: a stable machine code and a human message.
#[derive(Debug, Clone)]
pub struct ErrorResponse {
    pub code: String,
    pub message: String,
}

/// The stable code of each error.
pub open spec fn error_code(e: AppError) -> Seq<char> {
    match e {
        AppError::ClientNotFound => "CLIENT_NOT_FOUND"@,
        AppError::DuplicateDocumentNumber => "DUPLICATE_DOCUMENT_NUMBER"@,
        AppError::InvalidClientData(_) => "INVALID_CLIENT_DATA"@,
        AppError::OverdraftLimitExceeded => "OVERDRAFT_LIMIT_EXCEEDED"@,
        AppError::InvalidAmount => "INVALID_AMOUNT"@,
        AppError::InvalidClientId => "INVALID_CLIENT_ID"@,
        AppError::StorageError(_) => "STORAGE_ERROR"@,
        AppError::InternalError => "INTERNAL_ERROR"@,
    }
}

/// The HTTP status of each error.
pub open spec fn error_status(e: AppError) -> u16 {
    match e {
        AppError::ClientNotFound => 404,
        AppError::DuplicateDocumentNumber => 409,
        AppError::InvalidClientData(_) => 400,
        AppError::OverdraftLimitExceeded => 400,
        AppError::InvalidAmount => 400,
        AppError::InvalidClientId => 400,
        AppError::StorageError(_) => 500,
        AppError::InternalError => 500,
    }
}

/// The human-readable message of each error.
pub open spec fn error_message(e: AppError) -> Seq<char> {
    match e {
        AppError::ClientNotFound => "Client not found"@,
        AppError::DuplicateDocumentNumber => "Document number already exists"@,
        AppError::InvalidClientData(detail) => "Invalid client data: "@ + detail@,
        AppError::OverdraftLimitExceeded => "Overdraft limit exceeded"@,
        AppError::InvalidAmount => "Invalid amount. Amount must be greater than zero"@,
        AppError::InvalidClientId => "Invalid client id"@,
        AppError::StorageError(detail) => "Storage error: "@ + detail@,
        AppError::InternalError => "Internal server error"@,
    }
}

impl AppError {
    /// The stable machine-readable code of the error.
    pub fn code(&self) -> (r: &'static str)
        ensures
            r@ == error_code(*self),
    {
        match self {
            AppError::ClientNotFound => "CLIENT_NOT_FOUND",
            AppError::DuplicateDocumentNumber => "DUPLICATE_DOCUMENT_NUMBER",
            AppError::InvalidClientData(_) => "INVALID_CLIENT_DATA",
            AppError::OverdraftLimitExceeded => "OVERDRAFT_LIMIT_EXCEEDED",
            AppError::InvalidAmount => "INVALID_AMOUNT",
            AppError::InvalidClientId => "INVALID_CLIENT_ID",
            AppError::StorageError(_) => "STORAGE_ERROR",
            AppError::InternalError => "INTERNAL_ERROR",
        }
    }

    /// The HTTP status number the error is answered with.
    pub fn status_code(&self) -> (r: u16)
        ensures
            r == error_status(*self),
    {
        match self {
            AppError::ClientNotFound => 404,
            AppError::DuplicateDocumentNumber => 409,
            AppError::InvalidClientData(_)
            | AppError::OverdraftLimitExceeded
            | AppError::InvalidAmount
            | AppError::InvalidClientId => 400,
            AppError::StorageError(_) | AppError::InternalError => 500,
        }
    }

    /// The human-readable message of the error.
    pub fn message(&self) -> (r: String)
        ensures
            r@ == error_message(*self),
    {
        match self {
            AppError::ClientNotFound => String::from_str("Client not found"),
            AppError::DuplicateDocumentNumber => String::from_str("Document number already exists"),
            AppError::InvalidClientData(detail) => {
                let mut m = String::from_str("Invalid client data: ");
                m.append(detail.as_str());
                m
            },
            AppError::OverdraftLimitExceeded => String::from_str("Overdraft limit exceeded"),
            AppError::InvalidAmount => String::from_str(
                "Invalid amount. Amount must be greater than zero",
            ),
            AppError::InvalidClientId => String::from_str("Invalid client id"),
            AppError::StorageError(detail) => {
                let mut m = String::from_str("Storage error: ");
                m.append(detail.as_str());
                m
            },
            AppError::InternalError => String::from_str("Internal server error"),
        }
    }

    /// The JSON body that the error is answered with.
    pub fn error_body(&self) -> (r: ErrorResponse)
        ensures
            r.code@ == error_code(*self),
            r.message@ == error_message(*self),
    {
        ErrorResponse { code: String::from_str(self.code()), message: self.message() }
    }
}

} // verus!
