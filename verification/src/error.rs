//! Why a data loader cannot be made.
use vstd::prelude::*;

verus! {

/// The arguments of a data loader that are refused.
#[derive(Debug, Clone, Copy, PartialEq, Eq, Structural)]
pub enum LoaderError {
    /// There is no feature row.
    EmptyFeatures,
    /// There is not one label for each feature row.
    LengthMismatch,
    /// There is no file path.
    EmptyFilePaths,
    /// The batch size is zero.
    ZeroBatchSize,
}

impl LoaderError {
    /// The text of the message.
    pub open spec fn text(self) -> Seq<char> {
        match self {
            LoaderError::EmptyFeatures => "features must not be empty"@,
            LoaderError::LengthMismatch => "features and labels must have the same length"@,
            LoaderError::EmptyFilePaths => "file_paths must not be empty"@,
            LoaderError::ZeroBatchSize => "batch_size must be > 0"@,
        }
    }

    /// What to tell the caller.
    pub fn message(&self) -> (message: &'static str)
        ensures
            message@ == self.text(),
            *self is EmptyFeatures ==> message@ == "features must not be empty"@,
            *self is LengthMismatch ==> message@
                == "features and labels must have the same length"@,
            *self is EmptyFilePaths ==> message@ == "file_paths must not be empty"@,
            *self is ZeroBatchSize ==> message@ == "batch_size must be > 0"@,
    {
        match self {
            LoaderError::EmptyFeatures => "features must not be empty",
            LoaderError::LengthMismatch => "features and labels must have the same length",
            LoaderError::EmptyFilePaths => "file_paths must not be empty",
            LoaderError::ZeroBatchSize => "batch_size must be > 0",
        }
    }
}

} // verus!
