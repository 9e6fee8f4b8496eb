use std::collections::HashMap;

use vstd::prelude::*;

use crate::column::SubstitutionColumn;
use crate::error::PDFJsonError;

verus! {

/// The data read from one schedule document: when it was issued, and the
/// column of substitutions of each class, keyed by class name.
#[derive(Debug)]
pub struct SubstitutionSchedule {
    /// The creation date stored in the document, in milliseconds.
    pub pdf_issue_date: i64,
    /// The column of each class, keyed by the class name.
    pub entries: HashMap<String, SubstitutionColumn>,
}

/// Something that reads a schedule out of the bytes of a document. It fails
/// with `PDFReadError` where the bytes cannot be read as such a document.
pub trait SubstitutionPDFExtractor {
    fn schedule_from_pdf(pdf: &[u8]) -> Result<SubstitutionSchedule, PDFJsonError>;
}

} // verus!
