pub mod component;
pub mod scoring;
pub mod decision;
pub mod belief;
pub mod system;
pub mod draw;
