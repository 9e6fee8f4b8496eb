pub mod column;
pub mod error;
pub mod schedule;
pub mod substitution;
pub mod util;
pub mod wire;

pub use column::SubstitutionColumn;
pub use error::PDFJsonError;
pub use schedule::{SubstitutionPDFExtractor, SubstitutionSchedule};
pub use substitution::Substitution;
