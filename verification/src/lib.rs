pub mod chars;
pub mod claims;
pub mod credentail;
pub mod codec;
pub mod crypto;
pub mod policy;
pub mod text;
pub mod token;
pub mod user;
