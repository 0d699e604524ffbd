use vstd::prelude::*;

verus! {

/// Why the localized cursor names could not be loaded.
#[derive(Debug, Clone, PartialEq, Eq)]
pub enum Error {
    /// A Windows call failed with this HRESULT.
    Windows(i32),
    /// The file that holds the names does not exist at this path.
    PathNotExists(String),
}

/// The HRESULT of a Win32 error code, as `HRESULT::from_win32` of the
/// `windows-result` crate computes it: codes that are zero or negative as an
/// `i32` stay as they are; others keep their low 16 bits under the facility
/// `FACILITY_WIN32` with the failure bit set (`0x8007_0000`).
pub open spec fn spec_hresult_from_win32(code: u32) -> i32 {
    if code == 0 {
        0
    } else if code >= 0x8000_0000 {
        (code - 0x1_0000_0000) as i32
    } else {
        ((code % 0x10000) - 2147024896) as i32
    }
}

/// The HRESULT of a Win32 error code.
pub fn hresult_from_win32(code: u32) -> (r: i32)
    ensures
        r == spec_hresult_from_win32(code),
{
    if code == 0 {
        0
    } else if code >= 0x8000_0000 {
        (code as i64 - 0x1_0000_0000i64) as i32
    } else {
        ((code % 0x10000) as i64 - 2147024896i64) as i32
    }
}

impl Error {
    /// The error of a failed Win32 call that reported `code`.
    pub fn from_win32(code: u32) -> (r: Error)
        ensures
            r == Error::Windows(spec_hresult_from_win32(code)),
    {
        Error::Windows(hresult_from_win32(code))
    }
}

/// `ERROR_FILE_NOT_FOUND` (2) has the HRESULT that registry lookups of a
/// missing value report.
pub proof fn lemma_file_not_found_hresult()
    ensures
        spec_hresult_from_win32(2) == crate::scheme::HRESULT_FILE_NOT_FOUND,
{
}

} // verus!
