//! Kernel CVE analysis: kernel version parsing and ordering, the rule that
//! decides whether a CVE is still unfixed at a stable release, and the
//! request/response logic of the composition function that reports them.

pub mod text;
pub mod version;
pub mod ordering;
pub mod cve;
pub mod function;
