pub mod input;
pub mod labels;
pub mod tabs;
pub mod view;
