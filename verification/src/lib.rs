//! A verified codec between typed records and the tagged-union attribute
//! values of a key-value document store.
//!
//! The crate has three layers:
//!
//! * a value codec ([`codec`]) that converts between native field values and
//!   tagged attribute values, one conversion per supported attribute type;
//! * a record codec (also in [`codec`]) that drives the value codec over an
//!   ordered list of field descriptors ([`schema`]) to decode or encode a
//!   whole record;
//! * a key projector ([`keys`]) that derives the reduced record holding only
//!   the hash- and range-key fields of an item.
//!
//! Every conversion's meaning is a spec function, the executable code is
//! proved to match it, and [`laws`] states what holds of the whole: encoding
//! then decoding any conforming value or record yields it back, absence and
//! invalidity are told apart as [`errors::ConversionError`] says, and
//! entries under undeclared names are ignored.

pub mod attributes;
pub mod codec;
pub mod dynamodb_item;
pub mod errors;
pub mod keys;
pub mod laws;
pub mod numbers;
pub mod schema;
pub mod typed;

pub use attributes::AttributeMap;
pub use attributes::AttributeValue;
pub use dynamodb_item::AttributeValueConverter;
pub use dynamodb_item::DynamoDBInsertable;
pub use dynamodb_item::DynamoDBItem;
pub use dynamodb_item::ItemWithHashAndRange;
pub use dynamodb_item::ItemWithHashAndRangeKey;
pub use errors::ConversionError;
