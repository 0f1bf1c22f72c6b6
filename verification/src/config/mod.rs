pub mod profile;
pub mod settings;

pub use profile::Profile;
pub use settings::CursorStyle;
