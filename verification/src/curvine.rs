//! Loading whole files from a Curvine cluster: what is asked of the cluster, and
//! what is made of its answers.
pub mod assembly;
pub mod file;
pub mod loader;
pub mod lookup;
