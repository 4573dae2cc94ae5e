use vstd::prelude::*;

pub mod user;

verus! {

/// What the service reports about a PDF that it stored.
#[derive(Debug, Clone, PartialEq, Eq)]
pub struct MediaPayload {
    /// The last path segment of the storage key.
    pub file_name: String,
    /// The size of the stored PDF in bytes.
    pub file_size: i64,
    /// The media type of the stored file.
    pub file_type: String,
    /// The key under which the file was stored.
    pub storage_key: String,
    /// A signed URL that reads the file.
    pub url: String,
    /// The bucket that holds the file.
    pub bucket_name: String,
    /// The outcome of the upload.
    pub status: String,
    /// How much of the work is done, in percent.
    pub progress: i32,
}

/// A request to render a template into a PDF, as read from a form.
#[derive(Debug, Clone, PartialEq, Eq)]
pub struct PdfRequest {
    /// The template text.
    pub template: String,
    /// The data for the template, as JSON text (`null` when none was given
    /// or what was given is not JSON).
    pub data: String,
    /// The page width, as a CSS length.
    pub width: String,
    /// The page height, as a CSS length.
    pub height: String,
    /// The name under which the PDF is handed out.
    pub filename: String,
    /// The password that protects the PDF, if any.
    pub password: Option<String>,
}

} // verus!
