pub mod model;
pub mod text;
pub mod update;
pub mod value;
pub mod view;
