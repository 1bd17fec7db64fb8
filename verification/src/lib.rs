//! A codec between structured values and the tagged, big-endian NBT wire
//! format: an encoder, a decoder with tag and name lookahead, and the error
//! taxonomy both share.

pub mod nbt;
pub mod error;
pub mod wire;
pub mod reader;
pub mod text;
pub mod format;
pub mod value;
pub mod ser;
pub mod de;
pub mod laws;

pub use de::{from_bytes, from_reader, from_reader_named, read_name, Deserializer};
pub use error::Error;
pub use reader::ByteReader;
pub use ser::{to_writer, write_name, write_value, ListAccumulator, Serializer};
pub use value::{Field, FieldShape, Kind, Scalar, Shape, Value};
