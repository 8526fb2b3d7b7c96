pub mod creds;
pub mod decimal;
pub mod doc;
pub mod helper;
pub mod strutil;
