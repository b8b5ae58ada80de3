pub mod database_ids;
pub mod enc_path;
pub mod enc_string;
pub mod item;
pub mod percent;
pub mod planning;
pub mod repository;
pub mod text;
pub mod user;
