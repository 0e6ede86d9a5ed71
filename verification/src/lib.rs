//! Index and shape logic for two flattened-buffer objective evaluators: a
//! Gaussian mixture model (GMM) log-likelihood and an LSTM sequence loss.
//!
//! Both objectives work on flat numeric buffers whose layout is fixed by a
//! few scalar dimension parameters. Everything about that layout — the
//! packed strictly-lower-triangular index scheme of the GMM precision
//! factors, the per-cluster and per-layer block offsets, and the exact
//! buffer-length formulas that a caller must respect — is specified and
//! verified here. The floating-point evaluation that runs over these
//! indices cannot be verified and lives outside the library.
pub mod shapes;
pub mod tri;
pub mod layout;
