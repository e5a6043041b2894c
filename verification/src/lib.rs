mod digits;
pub mod kodansha;
mod progress;
pub mod text;
pub mod tui;
pub mod utils;

pub use kodansha::{Credentials, Library, Page, Series, User, Volume};
pub use progress::percent;
