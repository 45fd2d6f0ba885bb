//! Parameters and small test AIRs for users of the backend.

pub mod dummy_airs;
pub mod fri_params;
pub mod ordering;
