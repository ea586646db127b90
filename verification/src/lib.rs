//! Verified core of easy-to-use fire and laser shaders: the GPU uniform
//! layouts of the materials and the bookkeeping that tells fire materials
//! when the texture they sample has changed.
pub mod layout;
pub mod laser;
pub mod topdownfire;
