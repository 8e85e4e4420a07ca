//! Admission checks and mutations of Kubernetes objects addressed by JSON pointers.
pub mod json;
pub mod pointer;
pub mod text;
pub mod types;
pub mod validation;
pub mod mutation;
pub mod helpers;
pub mod ingress;
pub mod review;
