pub mod epub;
pub mod page;
pub mod pipeline;
pub mod series;
pub mod user;
pub mod volume;

pub use page::Page;
pub use series::Series;
pub use user::{Credentials, User};
pub use volume::{Library, Volume};
