pub mod annotations;
pub mod codegen;
pub mod data;
pub mod data_codec;
pub mod payload;
pub mod error;
pub mod property;
pub mod protocol;
pub mod schema;
pub mod schema_codec;
pub mod service;
pub mod signature;
pub mod storage_backend;
pub mod text;
pub mod trigger;
pub mod value;
pub mod wallpaper;
pub mod wire;
