//! Routing and certificate state of a TLS-terminating reverse proxy whose
//! configuration follows a cluster control plane.

pub mod text;
pub mod kube;
pub mod tls;
pub mod request;
