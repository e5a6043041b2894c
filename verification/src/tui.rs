pub mod app;
pub mod download;
pub mod login;
pub mod nav;
pub mod tree;
pub mod user;

pub use app::App;
pub use download::Download;
pub use login::LoginScreen;
pub use tree::Tree;
