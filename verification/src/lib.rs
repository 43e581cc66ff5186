//! A codec for the DNS wire format: the fixed 12-byte header, domain names
//! with compression pointers, question entries, resource records, whole
//! messages, and two encoders (an outbound query builder and a response
//! crafter).  Every decoder walks a read-only byte buffer by explicit
//! offsets and either returns a complete value or an error; it never reads
//! past the buffer and never panics.

pub mod bytes;
pub mod craft;
pub mod errors;
pub mod header;
pub mod laws;
pub mod message;
pub mod name;
pub mod query;
pub mod question;
pub mod record;
